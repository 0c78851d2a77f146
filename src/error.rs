use vstd::prelude::*;

verus! {

/// Errors of the harness. All of them are fatal configuration or selection
/// failures: a size with no valid input construction is not an error but a
/// skipped entry of a sweep.
#[derive(Debug, Clone, Copy, PartialEq, Eq, Structural)]
pub enum HarnessError {
    /// The sizes of a sweep are not strictly increasing.
    NonMonotonicSizes,
    /// The repetition floor is zero.
    ZeroRepetitionFloor,
    /// The default repetition count lies below the repetition floor.
    RepetitionsBelowFloor,
    /// A target was selected already; switching targets is unsupported.
    TargetAlreadySelected,
    /// A sweep was started before any target was selected.
    NoTargetSelected,
    /// The requested execution target cannot be initialized.
    BackendUnavailable,
}

impl HarnessError {
    pub open spec fn spec_is_configuration(self) -> bool {
        !(self is BackendUnavailable)
    }

    /// Whether this is a configuration error (as opposed to an unavailable
    /// backend).
    pub fn is_configuration(&self) -> (r: bool)
        ensures
            r == self.spec_is_configuration(),
    {
        match self {
            HarnessError::BackendUnavailable => false,
            _ => true,
        }
    }
}

} // verus!
