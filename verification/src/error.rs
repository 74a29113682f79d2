//! The errors that the library itself can detect. Filesystem failures stay
//! with the caller that performs the I/O; these variants cover the rules the
//! core enforces.
use vstd::prelude::*;

verus! {

/// Error taxonomy of the task tracker core.
#[derive(Clone, Copy, Debug, PartialEq, Eq, Structural)]
pub enum PmError {
    /// An index file already exists and overwriting was not forced.
    IndexExists,
    /// No task with the requested id is in the index.
    TaskNotFound,
    /// A document (index, detail document or status word) is malformed.
    Parse,
}

} // verus!
