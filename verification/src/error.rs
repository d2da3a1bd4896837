//! The failures that the model reports to its caller.

use vstd::prelude::*;

verus! {

/// Why an operation of the model did not take effect.
///
/// A lookup outside the valid range is not among these: it is answered with
/// `None` where it happens.
#[derive(Clone, Copy, Debug, PartialEq, Eq, Structural)]
pub enum CarteroError {
    /// The path is already in the list of open collections.
    AlreadyOpened,
    /// The collection that was referred to is no longer among the roots.
    StaleReference,
    /// The settings store rejected the last write of the open collections.
    PersistenceFailure,
    /// A dialog gave no path: the user left it without choosing, or it
    /// failed.
    FileDialogError,
}

} // verus!
