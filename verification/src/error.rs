use vstd::prelude::*;

verus! {

/// What can go wrong in fetching, loading or analysing.
#[derive(Debug, Clone, Copy, PartialEq, Eq, Structural)]
pub enum StatsError {
    /// The remote service could not be reached.
    RemoteUnavailable,
    /// The remote service refused access to a channel.
    PermissionDenied,
    /// A stored snapshot lacks a field or holds one of the wrong shape.
    MalformedSnapshot,
    /// A directory has no entry under an id.
    LookupMiss,
    /// The settings of an analysis make no sense.
    ConfigInvalid,
}

} // verus!
