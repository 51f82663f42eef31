//! Error taxonomy of the heap subsystem.

use vstd::prelude::*;

verus! {

/// An allocation strategy could not satisfy a request from the heap region.
#[derive(Clone, Copy, Debug, PartialEq, Eq, Structural)]
pub enum AllocError {
    OutOfMemory,
}

/// A fatal error while activating the heap region: either the physical-frame
/// source ran dry, or installing a page mapping conflicted with an existing
/// entry (a bug in earlier boot setup).
#[derive(Clone, Copy, Debug, PartialEq, Eq, Structural)]
pub enum HeapInitError {
    FrameAllocationFailed,
    PageAlreadyMapped,
    ParentEntryHugePage,
}

} // verus!
