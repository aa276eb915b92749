//! A small markdown site server: frontmatter splitting, error rendering and
//! directory listings, with their contracts proved by Verus.

pub mod error;
pub mod middleware;
pub mod parsing;
pub mod routes;
pub mod text;
pub mod web;

use vstd::prelude::*;

verus! {

/// What every request handler shares: where the pages live.
#[derive(Debug, Default, Clone)]
pub struct AppState {
    /// The directory of the markdown pages.
    pub content_root: String,
}

} // verus!
