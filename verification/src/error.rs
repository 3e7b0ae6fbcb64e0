//! The kinds of failure and which of them end an invocation.

use vstd::prelude::*;

verus! {

/// What can go wrong while staging or pasting.
#[derive(Clone, Copy, Debug, PartialEq, Eq, Structural)]
pub enum ErrorKind {
    /// A path to stage does not exist. The path is dropped and the rest of
    /// the batch is staged.
    InvalidSource,
    /// Nothing was ever staged, so there is nothing to paste.
    ClipboardUnavailable,
    /// A staged source is the destination itself or would collide with a name
    /// in it. The source is skipped and the rest of the batch is pasted.
    ExcludedByConflict,
    /// Reading or writing bytes failed during a transfer. The remaining
    /// transfers are not attempted.
    TransferIoError,
}

/// Why reading the store failed.
#[derive(Clone, Copy, Debug, PartialEq, Eq, Structural)]
pub enum StoreError {
    /// The store location does not exist: nothing was ever written to it.
    NotFound,
}

impl ErrorKind {
    /// Whether an error of this kind ends the invocation. Errors about a
    /// single entry are recovered from by skipping the entry; errors of store
    /// access and of a transfer under way are not recovered from.
    pub open spec fn ends_invocation(self) -> bool {
        self is ClipboardUnavailable || self is TransferIoError
    }

    /// Whether an error of this kind ends the invocation.
    pub fn is_fatal(&self) -> (fatal: bool)
        ensures
            fatal == self.ends_invocation(),
    {
        match self {
            ErrorKind::InvalidSource => false,
            ErrorKind::ClipboardUnavailable => true,
            ErrorKind::ExcludedByConflict => false,
            ErrorKind::TransferIoError => true,
        }
    }
}

} // verus!
