//! The publisher's recovery service, which lets subscribers request
//! messages from its master log.
use std::sync::Arc;

use vstd::prelude::*;

verus! {

/// Represents the recovery state of a publisher: processes connecting to
/// it can retrieve messages from the publisher's master record.
#[derive(Debug)]
pub struct PublisherRecovery<P> {
    /// The internal record of this recovery server.
    persistence: Arc<P>,
}

impl<P> PublisherRecovery<P> {
    /// The record this service reads from.
    pub closed spec fn persistence_spec(&self) -> Arc<P> {
        self.persistence
    }

    /// Create a new instance.
    pub fn new(persistence: Arc<P>) -> (r: Self)
        ensures
            r.persistence_spec() == persistence,
    {
        PublisherRecovery { persistence }
    }

    /// The record this service reads from.
    pub fn persistence(&self) -> (r: &Arc<P>)
        ensures
            *r == self.persistence_spec(),
    {
        &self.persistence
    }
}

} // verus!
