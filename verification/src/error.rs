//! The failures an adapter call can report, and their numeric codes.

use vstd::prelude::*;

verus! {

/// Why an adapter call failed. Each store failure is reported under the
/// kind of the call it interrupted.
#[derive(Clone, Copy, Debug, PartialEq, Eq, Structural)]
pub enum VfsError {
    /// The file cannot be opened in the mode asked for.
    CantOpen,
    /// The store failed during a read.
    IoRead,
    /// The store failed during a write or the commit of a batch.
    IoWrite,
    /// The store could not confirm durability.
    IoFsync,
    /// The store failed during a truncation.
    IoTruncate,
    /// The store failed while the file's size was measured, or the size
    /// does not fit the machine's word.
    IoFstat,
    /// The store failed during a deletion.
    IoDelete,
    /// The store failed during an existence check.
    IoAccess,
    /// The control signal is not one the adapter handles.
    NotFound,
}

/// Result code of the SQL engine for a disk I/O error; the extended codes
/// add a kind in the second byte.
pub const IOERR: i32 = 10;

impl VfsError {
    /// The engine's extended result code for this failure.
    pub open spec fn code_of(self) -> i32 {
        match self {
            VfsError::CantOpen => 14,
            VfsError::NotFound => 12,
            VfsError::IoRead => 266,
            VfsError::IoWrite => 778,
            VfsError::IoFsync => 1034,
            VfsError::IoTruncate => 1546,
            VfsError::IoFstat => 1802,
            VfsError::IoDelete => 2570,
            VfsError::IoAccess => 3338,
        }
    }

    /// Whether this failure is a disk I/O error of the engine.
    pub open spec fn is_io(self) -> bool {
        self != VfsError::CantOpen && self != VfsError::NotFound
    }

    /// The engine's extended result code for this failure: 14 and 12 for
    /// the two failures that are no I/O errors, and for an I/O error the
    /// code 10 with the kind of the call in the second byte.
    #[verifier::when_used_as_spec(code_of)]
    pub fn code(self) -> (code: i32)
        ensures
            code == self.code_of(),
            self.is_io() ==> code % 256 == IOERR,
            !self.is_io() ==> code < 256,
    {
        match self {
            VfsError::CantOpen => 14,
            VfsError::NotFound => 12,
            VfsError::IoRead => 266,
            VfsError::IoWrite => 778,
            VfsError::IoFsync => 1034,
            VfsError::IoTruncate => 1546,
            VfsError::IoFstat => 1802,
            VfsError::IoDelete => 2570,
            VfsError::IoAccess => 3338,
        }
    }
}

/// The codes tell the failures apart: two failures with one code are one failure.
pub proof fn lemma_codes_distinct(a: VfsError, b: VfsError)
    requires
        a.code_of() == b.code_of(),
    ensures
        a == b,
{
}

} // verus!
