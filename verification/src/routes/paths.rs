//! The path and text operations of the standard library and of
//! `convert_case` that the routes rely on. Paths are handled as strings.

use convert_case::Casing;
use vstd::prelude::*;

verus! {

/// The path `path` relative to `base`, as `std::path::Path::strip_prefix`
/// computes it (by whole components); `None` when `base` is not a prefix of
/// `path`.
pub uninterp spec fn stripped_path(path: Seq<char>, base: Seq<char>) -> Option<Seq<char>>;

/// The last component of `path`, as `std::path::Path::file_name` gives it;
/// `None` when there is none (the path is empty, a root, or ends in `..`).
pub uninterp spec fn path_file_name(path: Seq<char>) -> Option<Seq<char>>;

/// `s` in title case, as `convert_case`'s `to_case(Case::Title)` gives it.
pub uninterp spec fn title_cased(s: Seq<char>) -> Seq<char>;

/// `std::path::Path::strip_prefix`, the result displayed as a string. The
/// result is named by `stripped_path`; for a path given as a string its
/// display is the text itself.
#[verifier::external_body]
pub(crate) fn strip_prefix(path: &str, base: &str) -> (r: Result<String, std::path::StripPrefixError>)
    ensures
        r is Ok <==> stripped_path(path@, base@) is Some,
        r matches Ok(s) ==> s@ == stripped_path(path@, base@)->0,
{
    match std::path::Path::new(path).strip_prefix(base) {
        Ok(p) => Ok(p.display().to_string()),
        Err(e) => Err(e),
    }
}

/// `std::path::Path::file_name`, as a string slice of `path`. The result is
/// named by `path_file_name`.
#[verifier::external_body]
pub(crate) fn file_name(path: &str) -> (r: Option<&str>)
    ensures
        r is Some <==> path_file_name(path@) is Some,
        r matches Some(n) ==> n@ == path_file_name(path@)->0,
{
    match std::path::Path::new(path).file_name() {
        Some(n) => n.to_str(),
        None => None,
    }
}

/// `convert_case::Casing::to_case(s, Case::Title)`. The result is named by
/// `title_cased`.
#[verifier::external_body]
pub(crate) fn to_title_case(s: &str) -> (r: String)
    ensures
        r@ == title_cased(s@),
{
    s.to_case(convert_case::Case::Title)
}

/// `base` joined with `path`, as `std::path::Path::join` computes it (a
/// `path` that is absolute replaces `base`).
pub uninterp spec fn joined_path(base: Seq<char>, path: Seq<char>) -> Seq<char>;

/// `path` with its extension replaced by `ext`, as
/// `std::path::PathBuf::set_extension` computes it.
pub uninterp spec fn extension_set(path: Seq<char>, ext: Seq<char>) -> Seq<char>;

/// `std::path::Path::join`, the result displayed as a string. The result is
/// named by `joined_path`.
#[verifier::external_body]
pub(crate) fn join_path(base: &str, path: &str) -> (r: String)
    ensures
        r@ == joined_path(base@, path@),
{
    std::path::Path::new(base).join(path).display().to_string()
}

/// `std::path::PathBuf::set_extension`, the result displayed as a string.
/// The result is named by `extension_set`. The standard library panics when
/// the extension holds a path separator (`/`, and `\` on Windows), so such
/// an extension is not admitted.
#[verifier::external_body]
pub(crate) fn set_extension(path: &str, ext: &str) -> (r: String)
    requires
        !ext@.contains('/'),
        !ext@.contains('\\'),
    ensures
        r@ == extension_set(path@, ext@),
{
    let mut p = std::path::PathBuf::from(path);
    p.set_extension(ext);
    p.display().to_string()
}

} // verus!
