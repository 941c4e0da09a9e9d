//! Spans: byte ranges of the source buffer.

use vstd::prelude::*;

verus! {

/// A byte range of the source buffer: the offset of its first byte and its
/// length in bytes. A span never owns text; it is resolved against the buffer
/// it was cut from.
#[derive(Clone, Copy, Debug, PartialEq, Eq, Structural)]
pub struct Str(pub u32, pub u32);

impl Str {
    /// Offset of the first byte.
    pub open spec fn start(self) -> int {
        self.0 as int
    }

    /// Offset one past the last byte.
    pub open spec fn end(self) -> int {
        self.0 + self.1
    }

    /// The span that covers `from..to`.
    pub open spec fn between(from: int, to: int) -> Str {
        Str(from as u32, (to - from) as u32)
    }
}

} // verus!
