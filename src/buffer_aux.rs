use vstd::prelude::*;

verus! {

/// Consumer-side cursor into the buffer pool: which buffer, and which byte in it.
#[derive(Debug, Clone, Copy, PartialEq, Eq, Structural)]
pub struct BufferDataPos {
    pub buf_idx: usize,
    pub offset: usize,
}

/// Lifecycle tag of one buffer of the pool.
#[derive(Debug, Clone, Copy, PartialEq, Eq, Structural)]
pub enum BufferStatus {
    /// Idle or in flight: its bytes are not usable by the caller.
    Ready4Submit,
    /// Holds fetched bytes (reader) or may be filled (writer).
    Ready4Process,
    /// Past the end of the range: never submitted again.
    Invalid,
}

impl Default for BufferDataPos {
    fn default() -> (r: Self)
        ensures
            r.buf_idx == 0,
            r.offset == 0,
    {
        BufferDataPos { buf_idx: 0, offset: 0 }
    }
}

impl Default for BufferStatus {
    fn default() -> (r: Self)
        ensures
            r == BufferStatus::Ready4Submit,
    {
        BufferStatus::Ready4Submit
    }
}

} // verus!
