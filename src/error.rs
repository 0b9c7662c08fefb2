use vstd::prelude::*;

verus! {

/// Why a reader or writer could not be built, or could not go on.
#[derive(Debug, Clone, Copy, PartialEq, Eq, Structural)]
pub enum FioxError {
    /// The page size is zero.
    ZeroPageSize,
    /// The buffer capacity is zero or not a multiple of the page size.
    MisalignedCapacity,
    /// The writer's start position is not a multiple of the page size.
    MisalignedStart,
    /// The pool has no buffer.
    EmptyPool,
    /// The end of the range lies past the end of the file.
    EndPastFile,
    /// The start of the range lies past its end.
    StartPastEnd,
    /// A completion names a buffer that has no request in flight.
    UnexpectedCompletion,
    /// A completion moved another number of bytes than was requested.
    ShortTransfer,
}

} // verus!
