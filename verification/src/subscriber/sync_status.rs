use vstd::prelude::*;

verus! {

/// The status of the synchronization process i.e. whether we consider
/// the associated state to be valid or not.
#[derive(Debug, Copy, Clone, PartialEq, Eq, Hash, Structural)]
pub enum SyncStatus {
    Sync,
    Syncing,
    MissedHeartbeat,
}

impl Default for SyncStatus {
    fn default() -> (r: Self)
        ensures
            r == SyncStatus::Syncing,
    {
        SyncStatus::Syncing
    }
}

} // verus!
