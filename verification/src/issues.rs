//! The kinds of issues that the analyses look for.

use vstd::prelude::*;

verus! {

/// The kinds of issues that can be searched for in a code base.
#[derive(Debug, Clone, Copy)]
pub enum IssueKind {
    Formatting,
    CompilationWarning,
    CompilationError,
    OutdatedDependency,
    VulnerableDependency,
    UnboundedDataStructure,
    OutOfBound,
    ErrorHandling,
}

} // verus!
