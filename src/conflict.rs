use vstd::prelude::*;
use crate::error::Result;

verus! {

/// How a conflict between a local and a remote copy is settled.
#[derive(Debug, Clone, PartialEq, Eq)]
pub enum ConflictResolution {
    KeepLocal,
    KeepRemote,
    Manual(String),
}

/// Settles a conflict between the local and the remote copy of a file: the local copy
/// is kept.
pub fn resolve_conflict(local: &str, remote: &str) -> (r: Result<ConflictResolution>)
    ensures
        r matches Ok(ConflictResolution::KeepLocal),
{
    Ok(ConflictResolution::KeepLocal)
}

} // verus!
