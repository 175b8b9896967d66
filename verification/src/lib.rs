//! Frontmatter extraction for markdown documents.
//!
//! The library walks a markdown document's structural event stream, finds a
//! region enclosed by a pair of delimiter events, parses the `key: value`
//! lines inside it into a field mapping, and splices a rendered table into
//! the stream where the region stood.

use vstd::prelude::*;

pub mod events;
pub mod fields;
pub mod laws;
pub mod table;
pub mod transform;

verus! {

pub use crate::events::MdEvent;
pub use crate::events::TransformError;
pub use crate::fields::parse_frontmatter;
pub use crate::table::create_html_table_events;
pub use crate::transform::FrontmatterPreprocessor;
pub use crate::transform::effective_delimiter;
pub use crate::transform::transform_events;

} // verus!
