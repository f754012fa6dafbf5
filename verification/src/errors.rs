//! The recoverable error taxonomy of the engine.
//!
//! No error here is fatal: every one keeps the interactive loop alive, since
//! losing the session would lose the accumulated conversation context.

use vstd::prelude::*;

verus! {

/// The kinds of recoverable faults the engine reports.
#[derive(Clone, Copy, PartialEq, Eq, Structural, Debug)]
pub enum ErrorKind {
    /// The transport failed to issue a request or deliver its stream.
    Transport,
    /// A complete line was not a well-formed record; its bytes are dropped.
    Decode,
    /// The stream ended with unparsed bytes pending or mid-turn.
    TruncatedStream,
    /// A completed turn asked for a tool this build does not know.
    UnsupportedTool,
    /// A known tool was invoked and failed.
    ToolExecution,
}

} // verus!
