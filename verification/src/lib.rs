//! Dependency graphs of protobuf definitions: building them from descriptor
//! sets, comparing two of them, and rendering both as Markdown.
pub mod analyzer;
pub mod descriptor;
pub mod diff;
pub mod domain;
pub mod reporter;
pub mod text;

pub use analyzer::Analyzer;
pub use diff::DiffReport;
pub use reporter::MarkdownReporter;
