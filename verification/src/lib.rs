//! A verified core for a WebDAV client: canonical URL representation and
//! join semantics, request descriptors with header and credential merging,
//! a lazy byte-stream state machine over a chunked response body, and a
//! decoder for multistatus documents into a typed resource tree.
use vstd::prelude::*;

pub mod client;
pub mod collection;
pub mod error;
pub mod headers;
pub mod method;
pub mod multistatus;
pub mod privilege;
pub mod reader;
pub mod strutil;
pub mod url;
pub mod xml;

verus! {

/// An inclusive byte range, as used by the `Range: bytes=start-end` request
/// header. No ordering of `start` and `end` is enforced; validating the
/// range is the server's responsibility.
#[derive(Debug, Clone, Copy, PartialEq, Eq, Structural)]
pub struct Range {
    pub start: usize,
    pub end: usize,
}

impl Range {
    pub fn new(start: usize, end: usize) -> (r: Range)
        ensures
            r.start == start,
            r.end == end,
    {
        Self { start, end }
    }
}

} // verus!
