//! What the routes compute: directory listings and their links.

pub mod paths;
pub mod serve_dir;
pub mod serve_page;

use vstd::prelude::*;

verus! {

/// A header of a page.
#[derive(Clone)]
pub struct PageHeader(pub String);

} // verus!
