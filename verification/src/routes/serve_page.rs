//! Where the page at a path is read from.

use crate::routes::paths::{extension_set, join_path, joined_path, set_extension};
use crate::AppState;
use vstd::prelude::*;

verus! {

/// The markdown file that holds the page at `path`: the path under the
/// content root, with the extension `md`.
pub fn page_file(state: &AppState, path: &str) -> (r: String)
    ensures
        r@ == extension_set(joined_path(state.content_root@, path@), "md"@),
{
    let joined = join_path(state.content_root.as_str(), path);
    proof {
        reveal_strlit("md");
    }
    set_extension(joined.as_str(), "md")
}

/// The directory whose listing is the page at `path`: the path under the
/// content root.
pub fn dir_path(state: &AppState, path: &str) -> (r: String)
    ensures
        r@ == joined_path(state.content_root@, path@),
{
    join_path(state.content_root.as_str(), path)
}

} // verus!
