//! Conversion of a small markdown dialect into HTML fragments.
//!
//! A document is read line by line by the block scanner (`block`), which keeps
//! one block state from line to line and hands each content line to the line
//! converter (`inline`) for emphasis, strong, inline code, underline and links.
pub mod text;
pub mod inline;
pub mod block;

pub use block::{convert_document, convert_chars, heading_id, slug_of_folded, Block};
pub use inline::{convert_line, convert_line_into};
