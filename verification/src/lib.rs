//! Structural edits of PDF documents: merging documents, rotating pages and extracting pages,
//! on the object graph that the codec parses, without touching page content.
use vstd::prelude::*;

pub mod codec;
pub mod document;
pub mod error;
pub mod extract;
pub mod graph;
pub mod merge;
pub mod page_tree;
pub mod rotation;

pub use crate::extract::extract_pages;
pub use crate::merge::merge_pdfs_direct;
pub use crate::rotation::rotate_pdf;

verus! {

} // verus!
