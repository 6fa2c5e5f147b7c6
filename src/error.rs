//! Errors reported by the library.

use vstd::prelude::*;

verus! {

/// Why an operation on metrics or on their file failed.
#[derive(Clone, Copy, Debug, PartialEq, Eq, Structural)]
pub enum MmvError {
    /// A name or help text does not fit its block with its terminator.
    Validation,
    /// The metrics do not match the layout of the mapping they are used with.
    Layout,
    /// A value was set on a metric that holds no value slot yet.
    NotMapped,
    /// A value was set whose kind differs from the metric's kind.
    TypeMismatch,
}

} // verus!
