use vstd::prelude::*;

verus! {

/// The pluggable strategy applied to an event that matches no declared arm
/// or whose arm can no longer accept it.
#[derive(Clone, Copy, Debug, PartialEq, Eq, Structural, Hash)]
pub enum ErrorPolicy {
    /// Abort the whole pipeline at the offending event.
    Panicking,
    /// Drop the event silently and continue.
    Ignoring,
    /// Record the event and continue.
    Logging,
}

} // verus!
