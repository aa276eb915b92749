//! Directory listings: which entries are shown, and the link of each.

use crate::error::PathError;
use crate::routes::paths::{file_name, path_file_name, strip_prefix, stripped_path, title_cased, to_title_case};
use crate::text::join;
use crate::AppState;
use vstd::prelude::*;
use vstd::string::{StrSliceExecFns, StringExecFns};

verus! {

/// The index of the last `.` in `name`, or -1 when there is none.
pub open spec fn last_dot(name: Seq<char>) -> int
    decreases name.len(),
{
    if name.len() == 0 {
        -1
    } else if name.last() == '.' {
        name.len() - 1
    } else {
        last_dot(name.drop_last())
    }
}

/// The stem of a file name: the whole name when it holds no `.` or its only
/// `.` leads, else the part before the last `.`.
pub open spec fn stem_of(name: Seq<char>) -> Seq<char> {
    let k = last_dot(name);
    if k <= 0 {
        name
    } else {
        name.take(k)
    }
}

/// The extension of a file name: none when it holds no `.` or its only `.`
/// leads, else the part after the last `.`.
pub open spec fn extension_of(name: Seq<char>) -> Option<Seq<char>> {
    let k = last_dot(name);
    if k <= 0 {
        None
    } else {
        Some(name.skip(k + 1))
    }
}

/// A file name with an extension is its stem, a `.` and the extension; a
/// file name without one is its stem.
pub proof fn law_stem_and_extension(name: Seq<char>)
    ensures
        match extension_of(name) {
            Some(ext) => stem_of(name) + seq!['.'] + ext == name,
            None => stem_of(name) == name,
        },
{
    lemma_last_dot(name);
    let k = last_dot(name);
    if k > 0 {
        assert(name.take(k) + seq!['.'] + name.skip(k + 1) =~= name);
    }
}

/// The file stem of `path`, as `std::path::Path::file_stem` documents it.
pub open spec fn file_stem(path: Seq<char>) -> Option<Seq<char>> {
    match path_file_name(path) {
        Some(name) => Some(stem_of(name)),
        None => None,
    }
}

/// The extension of `path`, as `std::path::Path::extension` documents it.
pub open spec fn file_extension(path: Seq<char>) -> Option<Seq<char>> {
    match path_file_name(path) {
        Some(name) => extension_of(name),
        None => None,
    }
}

proof fn lemma_last_dot(name: Seq<char>)
    ensures
        -1 <= last_dot(name) < name.len(),
        last_dot(name) >= 0 ==> name[last_dot(name)] == '.',
        forall|i: int| last_dot(name) < i < name.len() ==> name[i] != '.',
    decreases name.len(),
{
    if name.len() > 0 && name.last() != '.' {
        let rest = name.drop_last();
        lemma_last_dot(rest);
        assert forall|i: int| last_dot(name) < i < name.len() implies name[i] != '.' by {
            if i < name.len() - 1 {
                assert(rest[i] == name[i]);
            }
        }
    }
}

/// The index of the last `.` in `name`, if there is one.
fn find_last_dot(name: &str) -> (k: Option<usize>)
    ensures
        match k {
            Some(i) => i == last_dot(name@) && i < name@.len(),
            None => last_dot(name@) == -1,
        },
{
    let n = name.unicode_len();
    let mut i: usize = n;
    proof {
        lemma_last_dot(name@);
    }
    while i > 0
        invariant
            i <= n == name@.len(),
            forall|j: int| i <= j < n ==> name@[j] != '.',
            last_dot(name@) < i,
        decreases i,
    {
        proof {
            lemma_last_dot(name@);
        }
        if name.get_char(i - 1) == '.' {
            return Some(i - 1);
        }
        i = i - 1;
    }
    None
}

/// The stem of a file name.
fn stem(name: &str) -> (s: &str)
    ensures
        s@ == stem_of(name@),
{
    proof {
        lemma_last_dot(name@);
    }
    match find_last_dot(name) {
        Some(k) if k > 0 => name.substring_char(0, k),
        _ => name,
    }
}

/// The extension of a file name.
fn extension(name: &str) -> (e: Option<&str>)
    ensures
        e matches Some(x) ==> extension_of(name@) == Some(x@),
        e is None ==> extension_of(name@) is None,
{
    proof {
        lemma_last_dot(name@);
    }
    let n = name.unicode_len();
    match find_last_dot(name) {
        Some(k) if k > 0 => Some(name.substring_char(k + 1, n)),
        _ => None,
    }
}

/// The file stem of `path`; a path without a file name has none, which is
/// reported with the path. A path given as a string is always unicode, so
/// `PathError::Unicode` does not arise here.
pub fn get_stem(path: &str) -> (r: Result<&str, PathError>)
    ensures
        match file_stem(path@) {
            Some(s) => r matches Ok(x) && x@ == s,
            None => r matches Err(PathError::FileStem { path: p }) && p@ == path@,
        },
{
    match file_name(path) {
        Some(name) => Ok(stem(name)),
        None => Err(PathError::FileStem { path: path.to_owned() }),
    }
}

/// `path` relative to the content root: the address of its page.
pub fn to_url(state: &AppState, path: &str) -> (r: Result<String, PathError>)
    ensures
        match stripped_path(path@, state.content_root@) {
            Some(u) => r matches Ok(x) && x@ == u,
            None => r matches Err(PathError::StripPrefix(_)),
        },
{
    match strip_prefix(path, state.content_root.as_str()) {
        Ok(url) => Ok(url),
        Err(e) => Err(PathError::StripPrefix(e)),
    }
}

/// A directory entry is listed when it is a directory or a markdown file
/// (extension `md`).
pub open spec fn is_listed(path: Seq<char>, is_dir: bool) -> bool {
    is_dir || file_extension(path) == Some("md"@)
}

/// Whether the entry at `path` is listed.
pub fn is_listed_entry(path: &str, is_dir: bool) -> (b: bool)
    ensures
        b == is_listed(path@, is_dir),
{
    if is_dir {
        return true;
    }
    proof {
        reveal_strlit("md");
    }
    match file_name(path) {
        None => false,
        Some(name) => match extension(name) {
            None => false,
            Some(ext) => {
                let n = ext.unicode_len();
                if n == 2 && ext.get_char(0) == 'm' && ext.get_char(1) == 'd' {
                    assert(ext@ =~= "md"@);
                    true
                } else {
                    assert(ext@ != "md"@);
                    false
                }
            },
        },
    }
}

/// A file that is not a directory is listed exactly when its file name ends
/// in `.md` after at least one character.
pub proof fn law_listed_files_end_in_md(path: Seq<char>)
    ensures
        is_listed(path, false) <==> (path_file_name(path) matches Some(n) && n.len() >= 4
            && n.subrange(n.len() - 3, n.len() as int) == ".md"@),
{
    reveal_strlit("md");
    reveal_strlit(".md");
    assert("md"@ =~= seq!['m', 'd']);
    assert(".md"@ =~= seq!['.', 'm', 'd']);
    if let Some(n) = path_file_name(path) {
        lemma_last_dot(n);
        let k = last_dot(n);
        if extension_of(n) == Some("md"@) {
            assert(n.skip(k + 1) == "md"@);
            assert(n.len() == k + 3);
            assert(n[k + 1] == n.skip(k + 1)[0] && n[k + 2] == n.skip(k + 1)[1]);
            assert(n.subrange(n.len() - 3, n.len() as int) =~= ".md"@);
        }
        if n.len() >= 4 && n.subrange(n.len() - 3, n.len() as int) == ".md"@ {
            let j = n.len() - 3;
            let suffix = n.subrange(n.len() - 3, n.len() as int);
            assert(suffix[0] == n[j] && suffix[1] == n[j + 1] && suffix[2] == n[j + 2]);
            assert(n[j] == '.' && n[j + 1] == 'm' && n[j + 2] == 'd');
            assert(k == j) by {
                if k < j {
                    assert(n[j] == '.');
                }
                if k > j {
                    assert(n[k] == '.');
                }
            }
            assert(n.skip(k + 1) =~= "md"@);
        }
    }
}

/// The views of directory entries: their paths, and whether each is a
/// directory.
pub open spec fn entry_views(entries: Seq<(String, bool)>) -> Seq<(Seq<char>, bool)> {
    entries.map_values(|e: (String, bool)| (e.0@, e.1))
}

/// A listing shows exactly the entries that are directories or markdown
/// files, whatever their number and position, in the order given: the
/// listed paths are the entries filtered by `is_listed`, paths taken.
pub proof fn law_listing_keeps_listed_entries(entries: Seq<(Seq<char>, bool)>)
    ensures
        listed_paths(entries) == entries.filter(|e: (Seq<char>, bool)| is_listed(e.0, e.1)).map_values(
            |e: (Seq<char>, bool)| e.0,
        ),
    decreases entries.len(),
{
    reveal_with_fuel(Seq::<(Seq<char>, bool)>::filter, 1);
    if entries.len() > 0 {
        law_listing_keeps_listed_entries(entries.drop_last());
        let sub = entries.drop_last().filter(|e: (Seq<char>, bool)| is_listed(e.0, e.1));
        assert(sub.push(entries.last()).map_values(|e: (Seq<char>, bool)| e.0) =~= sub.map_values(
            |e: (Seq<char>, bool)| e.0,
        ).push(entries.last().0));
    } else {
        assert(entries.filter(|e: (Seq<char>, bool)| is_listed(e.0, e.1)).map_values(
            |e: (Seq<char>, bool)| e.0,
        ) =~= Seq::<Seq<char>>::empty());
    }
}

/// The paths of the listed entries, in their order.
pub open spec fn listed_paths(entries: Seq<(Seq<char>, bool)>) -> Seq<Seq<char>>
    decreases entries.len(),
{
    if entries.len() == 0 {
        Seq::empty()
    } else {
        let rest = listed_paths(entries.drop_last());
        if is_listed(entries.last().0, entries.last().1) {
            rest.push(entries.last().0)
        } else {
            rest
        }
    }
}

/// The entries of a directory that its listing shows: directories and
/// markdown files, in the order given.
pub fn select_contents(entries: &Vec<(String, bool)>) -> (r: Vec<String>)
    ensures
        r@.map_values(|p: String| p@) == listed_paths(entry_views(entries@)),
{
    let mut r: Vec<String> = Vec::new();
    let mut i: usize = 0;
    while i < entries.len()
        invariant
            0 <= i <= entries@.len(),
            r@.map_values(|p: String| p@) == listed_paths(entry_views(entries@.take(i as int))),
        decreases entries@.len() - i,
    {
        let entry = &entries[i];
        let listed = is_listed_entry(entry.0.as_str(), entry.1);
        assert(entry_views(entries@.take(i + 1)).drop_last() =~= entry_views(
            entries@.take(i as int),
        ));
        if listed {
            r.push(entry.0.clone());
            assert(r@.map_values(|p: String| p@) =~= listed_paths(
                entry_views(entries@.take(i as int)),
            ).push(entry.0@));
        }
        i = i + 1;
    }
    assert(entries@.take(entries@.len() as int) =~= entries@);
    r
}

/// One line of a directory listing: the title and the address of a page.
pub open spec fn link_line(title: Seq<char>, url: Seq<char>) -> Seq<char> {
    " - ["@ + title + "](/"@ + url + ")"@
}

/// The listing line of the page at `path`, when the path has a file stem and
/// lies under `root`.
pub open spec fn link_of(root: Seq<char>, path: Seq<char>) -> Option<Seq<char>> {
    match file_stem(path) {
        None => None,
        Some(stem) => match stripped_path(path, root) {
            None => None,
            Some(url) => Some(link_line(title_cased(stem), url)),
        },
    }
}

/// The line of a page links to its address, the path stripped of the
/// content root, whether the page lies directly under the root or deeper;
/// its text is the title-cased file stem. A path without a file stem or
/// outside the root has no line.
pub proof fn law_link_targets_address(root: Seq<char>, path: Seq<char>)
    ensures
        link_of(root, path) == match (file_stem(path), stripped_path(path, root)) {
            (Some(stem), Some(u)) => Some(" - ["@ + title_cased(stem) + "](/"@ + u + ")"@),
            _ => None,
        },
{
}

/// The first index at or after `i` whose path has no listing line, or the
/// length of `paths` when every one has.
pub open spec fn first_unlinked(root: Seq<char>, paths: Seq<Seq<char>>, i: int) -> int
    decreases paths.len() - i,
{
    if i < 0 || i >= paths.len() || link_of(root, paths[i]) is None {
        i
    } else {
        first_unlinked(root, paths, i + 1)
    }
}

proof fn lemma_first_unlinked(root: Seq<char>, paths: Seq<Seq<char>>, i: int)
    requires
        0 <= i <= paths.len(),
    ensures
        i <= first_unlinked(root, paths, i) <= paths.len(),
        forall|k: int| i <= k < first_unlinked(root, paths, i) ==> link_of(root, paths[k]) is Some,
        first_unlinked(root, paths, i) < paths.len() ==> link_of(
            root,
            paths[first_unlinked(root, paths, i)],
        ) is None,
    decreases paths.len() - i,
{
    if i < paths.len() && link_of(root, paths[i]) is Some {
        lemma_first_unlinked(root, paths, i + 1);
    }
}

/// The listing lines of `files`, one per file in order. The first file that
/// has no file stem, or does not lie under the content root, is reported.
pub fn format_links(state: &AppState, files: &Vec<String>) -> (r: Result<Vec<String>, PathError>)
    ensures
        ({
            let paths = files@.map_values(|p: String| p@);
            let root = state.content_root@;
            let k = first_unlinked(root, paths, 0);
            if k == paths.len() {
                r matches Ok(links) && links@.len() == paths.len() && forall|i: int|
                    0 <= i < paths.len() ==> Some(#[trigger] links@[i]@) == link_of(root, paths[i])
            } else {
                match file_stem(paths[k]) {
                    None => r matches Err(PathError::FileStem { path: p }) && p@ == paths[k],
                    Some(_) => r matches Err(PathError::StripPrefix(_)),
                }
            }
        }),
{
    let ghost paths = files@.map_values(|p: String| p@);
    let ghost root = state.content_root@;
    proof {
        lemma_first_unlinked(root, paths, 0);
    }
    let mut ret: Vec<String> = Vec::new();
    let mut i: usize = 0;
    while i < files.len()
        invariant
            paths == files@.map_values(|p: String| p@),
            root == state.content_root@,
            0 <= i <= files@.len(),
            ret@.len() == i,
            forall|k: int| 0 <= k < i ==> link_of(root, paths[k]) is Some,
            forall|k: int| 0 <= k < i ==> Some(#[trigger] ret@[k]@) == link_of(root, paths[k]),
            first_unlinked(root, paths, 0) == first_unlinked(root, paths, i as int),
        decreases files@.len() - i,
    {
        let p = files[i].as_str();
        let stem = match get_stem(p) {
            Ok(stem) => stem,
            Err(e) => {
                return Err(e);
            },
        };
        let display = to_title_case(stem);
        let url = match to_url(state, p) {
            Ok(url) => url,
            Err(e) => {
                return Err(e);
            },
        };
        let mut link = String::new();
        link.append(" - [");
        link.append(display.as_str());
        link.append("](/");
        link.append(url.as_str());
        link.append(")");
        ret.push(link);
        i = i + 1;
    }
    Ok(ret)
}

/// The placeholder page of a directory: its path and its listing lines.
pub open spec fn listing_page(path: Seq<char>, links: Seq<Seq<char>>) -> Seq<char> {
    "# Not Implemented\n\n"@ + path
        + "\n\nThe method to show this page has not been implemented yet!\n\n"@ + join(
        links,
        "\n"@,
    )
}

/// The listing page of no links is its header; adding a link adds it at
/// the end, after a line feed when other links come before it.
pub proof fn law_listing_appends_link(path: Seq<char>, links: Seq<Seq<char>>, l: Seq<char>)
    ensures
        listing_page(path, Seq::empty()) == "# Not Implemented\n\n"@ + path
            + "\n\nThe method to show this page has not been implemented yet!\n\n"@,
        listing_page(path, links.push(l)) == listing_page(path, links) + (if links.len() == 0 {
            Seq::<char>::empty()
        } else {
            "\n"@
        }) + l,
{
    assert(links.push(l).drop_last() =~= links);
    assert(join(Seq::<Seq<char>>::empty(), "\n"@) == Seq::<char>::empty());
    if links.len() == 0 {
        assert(join(links.push(l), "\n"@) == l);
    }
    assert(listing_page(path, Seq::empty()) =~= "# Not Implemented\n\n"@ + path
        + "\n\nThe method to show this page has not been implemented yet!\n\n"@);
    assert(listing_page(path, links.push(l)) =~= listing_page(path, links) + (if links.len() == 0 {
        Seq::<char>::empty()
    } else {
        "\n"@
    }) + l);
}

/// The placeholder page of the directory at `path` with the given listing
/// lines.
pub fn dir_listing(path: &str, links: &Vec<String>) -> (r: String)
    ensures
        r@ == listing_page(path@, links@.map_values(|l: String| l@)),
{
    let ghost parts = links@.map_values(|l: String| l@);
    let mut r = String::new();
    r.append("# Not Implemented\n\n");
    r.append(path);
    r.append("\n\nThe method to show this page has not been implemented yet!\n\n");
    let ghost head = r@;
    let mut i: usize = 0;
    while i < links.len()
        invariant
            parts == links@.map_values(|l: String| l@),
            0 <= i <= links@.len(),
            r@ == head + join(parts.take(i as int), "\n"@),
        decreases links@.len() - i,
    {
        if i > 0 {
            r.append("\n");
        }
        r.append(links[i].as_str());
        assert(parts.take(i + 1).drop_last() =~= parts.take(i as int));
        proof {
            if i == 0 {
                assert(parts.take(1) =~= seq![parts[0]]);
                assert(parts.take(0) =~= Seq::<Seq<char>>::empty());
            }
        }
        i = i + 1;
    }
    assert(parts.take(links@.len() as int) =~= parts);
    r
}

} // verus!
