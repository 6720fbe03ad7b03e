//! An incremental catalog of text documents: filename and front-matter
//! parsing, content-derived identities, and a paginated, orderable index.

use vstd::prelude::*;

verus! {

/// Number of catalog entries that one load step or one displayed page covers.
pub const ITEMS_PER_PAGE: u64 = 12;

} // verus!

pub mod bytes;
pub mod content;
pub mod date;
pub mod frontmatter;
pub mod laws;
pub mod parser;
pub mod sort;
