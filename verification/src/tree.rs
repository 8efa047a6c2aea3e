//! The tree of errors that the renderer and the codec operate on, as plain
//! data: one node per error, with its message, an optional source location,
//! recorded contextual frames, and the causal child errors in display order.

use vstd::prelude::*;

verus! {

/// A `file:line` pair recorded for one contextual frame.
pub struct SpanLocation {
    pub file: String,
    pub line: u64,
}

/// One recorded contextual operation attached to a node, akin to a call-stack
/// frame with structured fields.
pub struct TraceFrame {
    /// Opaque equality-comparable token naming the callsite that recorded this
    /// frame. Frames that share a token count as the same frame when repeats
    /// are collapsed, even if their `fields` differ.
    pub identifier: String,
    /// Logical subsystem name.
    pub target: String,
    /// Logical operation name.
    pub name: String,
    /// Free-form `key=value ...` content; may be empty.
    pub fields: String,
    /// Recording site, if known.
    pub location: Option<SpanLocation>,
}

/// Extra metadata captured alongside an error: its construction site and the
/// contextual frames that were live when it was recorded.
pub struct ErrTreePkg {
    pub location: Option<String>,
    pub trace: Vec<TraceFrame>,
}

/// One error with its causal children, in display order.
pub struct ErrTree {
    /// Display message; may span several lines.
    pub msg: String,
    /// `file:line:column` of the error's construction site, if tracked.
    pub location: Option<String>,
    /// Contextual frames, oldest-outer first.
    pub trace: Vec<TraceFrame>,
    /// Child errors; the last one is rendered with a distinct connector.
    pub sources: Vec<ErrTree>,
}

impl ErrTreePkg {
    /// Bundles already-captured metadata.
    pub fn new(location: Option<String>, trace: Vec<TraceFrame>) -> (r: Self)
        ensures
            r.location == location,
            r.trace == trace,
    {
        ErrTreePkg { location, trace }
    }
}

impl ErrTree {
    /// Common constructor, with metadata.
    pub fn with_pkg(msg: String, sources: Vec<ErrTree>, pkg: ErrTreePkg) -> (r: Self)
        ensures
            r.msg == msg,
            r.location == pkg.location,
            r.trace == pkg.trace,
            r.sources == sources,
    {
        ErrTree { msg, location: pkg.location, trace: pkg.trace, sources }
    }

    /// Constructor for when no metadata was captured.
    pub fn no_pkg(msg: String, sources: Vec<ErrTree>) -> (r: Self)
        ensures
            r.msg == msg,
            r.location is None,
            r.trace@ =~= Seq::<TraceFrame>::empty(),
            r.sources == sources,
    {
        ErrTree { msg, location: None, trace: Vec::new(), sources }
    }

    /// Consumes this tree to return its children.
    pub fn sources(self) -> (r: Vec<ErrTree>)
        ensures
            r == self.sources,
    {
        self.sources
    }
}

} // verus!
