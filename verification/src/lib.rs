//! A file-backed task tracker: a single index of tasks (id, status,
//! status-change history, optional priority) plus one detail document per
//! task. This crate holds the verified core: the task registry with its id
//! allocation and status state machine, the text formats of the index and
//! detail documents, and the path layout. Reading and writing the files
//! themselves is left to the (unverified) binary around the library.
use vstd::prelude::*;

pub mod clock;
pub mod codec;
pub mod detail;
pub mod error;
pub mod index;
pub mod manager;
pub mod paths;
pub mod text;

verus! {

} // verus!
