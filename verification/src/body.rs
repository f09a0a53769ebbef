//! How a filter sees a message body.

use vstd::prelude::*;

verus! {

/// Body bound of the JSON body filters where none is configured.
pub const DEFAULT_JSON_BODY_MAX_BYTES: usize = 10_485_760;

/// What a filter may do with a body.
#[derive(Clone, Copy, Debug, PartialEq, Eq, Structural)]
pub enum BodyAccess {
    /// The body hook does not run.
    Unused,
    /// The filter reads the body.
    ReadOnly,
    /// The filter reads and rewrites the body.
    ReadWrite,
}

/// How a body reaches a filter.
#[allow(inconsistent_fields)]
#[derive(Clone, Copy, Debug, PartialEq, Eq, Structural)]
pub enum BodyMode {
    /// Chunk by chunk, as they arrive.
    Stream,
    /// Accumulated up to a limit before it is forwarded.
    StreamBuffer {
        /// The limit, if there is one.
        max_bytes: Option<usize>,
    },
    /// Chunk by chunk, up to a limit.
    SizeLimit {
        /// The limit.
        max_bytes: usize,
    },
}

} // verus!
