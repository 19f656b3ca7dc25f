//! Why a snapshot of the process table could not be taken.
use vstd::prelude::*;

verus! {

/// The scan itself could not complete.
#[derive(Debug, PartialEq, Eq)]
pub enum EnumerationError {
    /// The query for the size of the kernel's process table returned this status.
    SizeQuery(i32),
    /// The query that fills the process table returned this status.
    TableQuery(i32),
    /// The listing tool's header line lacks the named column.
    MissingColumn(String),
    /// A line of the listing tool's output does not fit the header's layout.
    MalformedLine(String),
}

} // verus!
