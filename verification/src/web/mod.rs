//! Pages as the web layer hands them around.

use vstd::prelude::*;

verus! {

/// The body of a page.
pub struct Page(pub String);

} // verus!
