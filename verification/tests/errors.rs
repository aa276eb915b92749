use corrode::error::parse::{ErrorKind, ParseError};
use corrode::error::{falls_back_to_listing, DirError, FrontmatterError, PageError, PathError};
use corrode::middleware::{handle_error_action, wrap_page_action, MiddlewareAction};
use corrode::parsing::date::Date;
use corrode::parsing::Span;
use std::io;

#[test]
fn span_positions() {
    let s = Span::new("ab\ncd");
    assert_eq!((s.location_offset(), s.location_line(), s.fragment()), (0, 1, "ab\ncd"));
    let s = Span::located("ab\ncd", 4);
    assert_eq!((s.location_offset(), s.location_line(), s.fragment()), (4, 2, "d"));
}

#[test]
fn parse_error_with_context() {
    let e = ParseError::new("boom".to_string(), Span::new("xyz"), Some("outer"));
    assert_eq!(e.line(), 1);
    assert_eq!(e.offset(), 0);
    assert_eq!(e.render(), "Frontmatter parse error at line 1, column 0\n  |\n1 | xyz\n  | ^^^\nboom\nwhile: outer\n");
    let e = ParseError::new("boom".to_string(), Span::new(""), None);
    assert_eq!(e.render(), "Frontmatter parse error at line 1, column 0\n  |\n1 | \n  | ^\nboom\n");
}

#[test]
fn parse_error_constructors() {
    let span = Span::new("q");
    let e = ParseError::from_char(span, 'q');
    assert!(e.render().contains("Unexpected character: 'q'\n"));
    let e = ParseError::add_context(span, "step", e);
    assert!(e.render().ends_with("while: step\n"));
    let k = ParseError::from_error_kind(span, ErrorKind::Tag);
    assert!(k.render().contains("\nParse error: Tag\n"));
    let kept = ParseError::append(span, ErrorKind::CrLf, k.clone());
    assert_eq!(kept.render(), k.render());
    let second = ParseError::from_error_kind(span, ErrorKind::CrLf);
    assert_eq!(k.or(second).render(), ParseError::from_error_kind(span, ErrorKind::CrLf).render());
}

#[test]
fn frontmatter_error_from_parse_error() {
    let e = ParseError::new("m".to_string(), Span::new("a"), None);
    let rendered = e.render();
    match FrontmatterError::from(e) {
        FrontmatterError::Parse(m) => assert_eq!(m, rendered),
        other => panic!("unexpected {:?}", other),
    }
}

#[test]
fn page_error_kinds() {
    let e = PageError::IO(io::Error::new(io::ErrorKind::NotFound, "x"));
    assert_eq!(e.kind(), Some(io::ErrorKind::NotFound));
    let e = PageError::Read { path: "p".to_string(), source: io::Error::new(io::ErrorKind::PermissionDenied, "x") };
    assert_eq!(e.kind(), Some(io::ErrorKind::PermissionDenied));
    let e = PageError::Dir(DirError::IO(io::Error::new(io::ErrorKind::Other, "x")));
    assert_eq!(e.kind(), Some(io::ErrorKind::Other));
    let e = PageError::Dir(DirError::Read { path: "p".to_string(), source: io::Error::new(io::ErrorKind::NotFound, "x") });
    assert_eq!(e.kind(), Some(io::ErrorKind::NotFound));
    let e = PageError::Dir(DirError::Path(PathError::Unicode { path: "p".to_string() }));
    assert_eq!(e.kind(), None);
}

#[test]
fn dates_exist_in_the_calendar() {
    let d = Date::from_ymd(2024, 2, 29).unwrap();
    assert_eq!((d.year(), d.month(), d.day()), (2024, 2, 29));
    assert!(Date::from_ymd(2000, 2, 29).is_some());
    assert!(Date::from_ymd(2023, 2, 29).is_none());
    assert!(Date::from_ymd(1900, 2, 29).is_none());
    assert!(Date::from_ymd(2024, 13, 1).is_none());
    assert!(Date::from_ymd(2024, 0, 1).is_none());
    assert!(Date::from_ymd(2024, 4, 31).is_none());
    assert!(Date::from_ymd(2024, 4, 0).is_none());
    assert!(Date::from_ymd(262142, 12, 31).is_some());
    assert!(Date::from_ymd(262143, 1, 1).is_none());
    assert!(Date::from_ymd(-262143, 1, 1).is_some());
    assert!(Date::from_ymd(-262144, 12, 31).is_none());
    assert!(Date::from_ymd(-4, 2, 29).is_some());
}

#[test]
fn dates_agree_with_chrono() {
    for (y, m, d) in [(2024, 2, 29), (2023, 2, 29), (1600, 2, 29), (1700, 2, 29), (2024, 11, 31), (2024, 12, 31)] {
        assert_eq!(Date::from_ymd(y, m, d).is_some(), chrono::NaiveDate::from_ymd_opt(y, m, d).is_some());
    }
}

#[test]
fn one_layout_per_response() {
    assert_eq!(wrap_page_action(200), MiddlewareAction::Rewrap);
    assert_eq!(handle_error_action(200), MiddlewareAction::PassThrough);
    assert_eq!(wrap_page_action(299), MiddlewareAction::Rewrap);
    assert_eq!(wrap_page_action(404), MiddlewareAction::PassThrough);
    assert_eq!(handle_error_action(404), MiddlewareAction::Rewrap);
    assert_eq!(handle_error_action(199), MiddlewareAction::Rewrap);
    assert_eq!(wrap_page_action(300), MiddlewareAction::PassThrough);
}

#[test]
fn read_error_kind_is_held_kind() {
    let e = PageError::Read { path: "a".to_string(), source: io::Error::from(io::ErrorKind::NotFound) };
    assert_eq!(e.kind(), Some(io::ErrorKind::NotFound));
}

#[test]
fn listing_replaces_missing_page_file_only() {
    let e = PageError::Read { path: "a".to_string(), source: io::Error::from(io::ErrorKind::NotFound) };
    assert!(falls_back_to_listing(&e));
    let e = PageError::IO(io::Error::from(io::ErrorKind::NotFound));
    assert!(falls_back_to_listing(&e));
    let e = PageError::Read { path: "a".to_string(), source: io::Error::from(io::ErrorKind::PermissionDenied) };
    assert!(!falls_back_to_listing(&e));
    let e = PageError::Dir(DirError::Path(PathError::FileStem { path: "p".to_string() }));
    assert!(!falls_back_to_listing(&e));
    let e = PageError::Dir(DirError::Read { path: "p".to_string(), source: io::Error::from(io::ErrorKind::NotFound) });
    assert!(falls_back_to_listing(&e));
}
