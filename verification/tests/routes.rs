use corrode::error::PathError;
use corrode::routes::serve_dir::{
    dir_listing, format_links, get_stem, is_listed_entry, select_contents, to_url,
};
use corrode::routes::serve_page::{dir_path, page_file};
use corrode::routes::PageHeader;
use corrode::web::Page;
use corrode::AppState;

fn state() -> AppState {
    AppState { content_root: "content".to_string() }
}

#[test]
fn stem_of_markdown_file() {
    assert_eq!(get_stem("content/blog/post.md").unwrap(), "post");
}

#[test]
fn stem_keeps_leading_dot() {
    assert_eq!(get_stem("content/.hidden").unwrap(), ".hidden");
}

#[test]
fn stem_drops_only_last_extension() {
    assert_eq!(get_stem("content/archive.tar.gz").unwrap(), "archive.tar");
    assert_eq!(get_stem("content/x.").unwrap(), "x");
}

#[test]
fn stem_of_directory_path() {
    assert_eq!(get_stem("content/dir/").unwrap(), "dir");
}

#[test]
fn no_stem_without_file_name() {
    match get_stem("content/..") {
        Err(PathError::FileStem { path }) => assert_eq!(path, "content/.."),
        other => panic!("unexpected {:?}", other),
    }
    assert!(matches!(get_stem("/"), Err(PathError::FileStem { .. })));
}

#[test]
fn url_relative_to_content_root() {
    assert_eq!(to_url(&state(), "content/blog/post.md").unwrap(), "blog/post.md");
    assert_eq!(to_url(&state(), "content").unwrap(), "");
}

#[test]
fn url_outside_content_root_is_refused() {
    assert!(matches!(to_url(&state(), "other/x.md"), Err(PathError::StripPrefix(_))));
    // Prefixes are whole components.
    assert!(matches!(to_url(&state(), "contents/x.md"), Err(PathError::StripPrefix(_))));
}

#[test]
fn links_in_title_case() {
    let files = vec!["content/my_post.md".to_string(), "content/sub-dir".to_string()];
    let links = format_links(&state(), &files).unwrap();
    assert_eq!(links, vec![" - [My Post](/my_post.md)".to_string(), " - [Sub Dir](/sub-dir)".to_string()]);
}

#[test]
fn links_of_no_files() {
    assert_eq!(format_links(&state(), &vec![]).unwrap(), Vec::<String>::new());
}

#[test]
fn first_bad_file_is_reported() {
    let files = vec![
        "content/a.md".to_string(),
        "content/..".to_string(),
        "elsewhere/b.md".to_string(),
    ];
    match format_links(&state(), &files) {
        Err(PathError::FileStem { path }) => assert_eq!(path, "content/.."),
        other => panic!("unexpected {:?}", other),
    }
    let files = vec!["elsewhere/b.md".to_string(), "content/..".to_string()];
    assert!(matches!(format_links(&state(), &files), Err(PathError::StripPrefix(_))));
}

#[test]
fn listed_entries_are_directories_and_markdown() {
    assert!(is_listed_entry("c/a.md", false));
    assert!(is_listed_entry("c/d", true));
    assert!(!is_listed_entry("c/b.txt", false));
    assert!(!is_listed_entry("c/.md", false));
    assert!(!is_listed_entry("c/e.MD", false));
    assert!(!is_listed_entry("c/readme", false));
}

#[test]
fn selects_listed_entries_in_order() {
    let entries = vec![
        ("c/a.md".to_string(), false),
        ("c/b.txt".to_string(), false),
        ("c/d".to_string(), true),
        ("c/.md".to_string(), false),
        ("c/z.md".to_string(), false),
    ];
    assert_eq!(select_contents(&entries), vec!["c/a.md".to_string(), "c/d".to_string(), "c/z.md".to_string()]);
}

#[test]
fn listing_page_text() {
    let links = vec!["l1".to_string(), "l2".to_string()];
    assert_eq!(
        dir_listing("blog", &links),
        "# Not Implemented\n\nblog\n\nThe method to show this page has not been implemented yet!\n\nl1\nl2"
    );
    assert_eq!(
        dir_listing("", &vec![]),
        "# Not Implemented\n\n\n\nThe method to show this page has not been implemented yet!\n\n"
    );
}

#[test]
fn plain_wrappers() {
    let h = PageHeader("Title".to_string());
    assert_eq!(h.clone().0, "Title");
    let p = Page("body".to_string());
    assert_eq!(p.0, "body");
    assert_eq!(AppState::default().content_root, "");
}

#[test]
fn page_and_directory_files() {
    assert_eq!(page_file(&state(), "blog/post"), "content/blog/post.md");
    assert_eq!(page_file(&state(), "blog/post.txt"), "content/blog/post.md");
    assert_eq!(dir_path(&state(), "blog"), "content/blog");
    assert_eq!(dir_path(&state(), ""), "content/");
}
