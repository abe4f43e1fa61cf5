//! The failures the engine reports.

use vstd::prelude::*;

verus! {

/// What a storage operation can fail with.
///
/// Reads of a page beyond the store's end surface as `PageOutOfRange` only
/// from the pager itself; the buffer pool converts them into a fresh
/// zero-filled page.  `CorruptPage` marks a slot whose recorded offset or
/// length points outside its page.
#[derive(Debug, Clone, Copy, PartialEq, Eq, Structural)]
pub enum StoreError {
    PageOutOfRange,
    BufferPoolExhausted,
    TupleTooLarge,
    CorruptPage,
}

} // verus!
