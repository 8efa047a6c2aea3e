//! Renders a hierarchical error (a root failure with causal sources,
//! recursively) as a box-drawn text tree, and round-trips the same
//! information through a compact line-oriented text encoding.

pub mod buffer;
pub mod escape;
pub mod fmt_logic;
pub mod json;
pub mod laws;
pub mod scan;
pub mod text;
pub mod tree;
pub mod view;

pub use buffer::IterBuffer;
pub use buffer::OneOrTwo;
pub use escape::JsonStrChars;
pub use fmt_logic::DedupOutcome;
pub use fmt_logic::ErrTreeDisplay;
pub use fmt_logic::FrameDeduplicator;
pub use fmt_logic::LeadingLineFormatter;
pub use fmt_logic::PrefixBuffer;
pub use fmt_logic::print_tree;
pub use json::JsonReconstruct;
pub use json::reconstruct_output;
pub use json::reconstruct_tree;
pub use json::tree_to_json;
pub use scan::SourcesIter;
pub use tree::ErrTree;
pub use tree::ErrTreePkg;
pub use tree::SpanLocation;
pub use tree::TraceFrame;
