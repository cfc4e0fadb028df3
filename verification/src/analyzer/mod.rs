//! The analyzer: from a descriptor set to the dependency graph of its
//! definitions.
pub mod edge_builder;
pub mod engine;
pub mod node_builder;
pub mod table;
pub mod util;

pub use self::engine::{Analyzer, AnalyzerView};
