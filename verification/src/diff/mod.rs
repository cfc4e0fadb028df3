//! Comparing two graphs, and the Markdown of the comparison.
pub mod markdown;
pub mod report;

pub use self::report::{Change, DiffItems, DiffNode, DiffReport, ModifiedItem};
