//! The subscriber's state together with its synchronisation status.
use vstd::prelude::*;

use crate::state_sync::StateSync;
use crate::subscriber::message::SubscriberStreamMessage;
use crate::subscriber::sync_status::SyncStatus;

verus! {

/// Wraps the state and provides a status field to communicate the
/// subscriber's sync status.
#[derive(Debug, Default, PartialEq, Eq, Clone)]
pub struct SubscriberStateWrapper<S> {
    state: S,
    sync_status: SyncStatus,
}

impl<S> SubscriberStateWrapper<S> {
    /// The wrapped state.
    pub closed spec fn state_spec(&self) -> S {
        self.state
    }

    /// The synchronisation status.
    pub closed spec fn status_spec(&self) -> SyncStatus {
        self.sync_status
    }

    /// A wrapper of `state` that is still synchronising.
    pub fn new(state: S) -> (r: Self)
        ensures
            r.state_spec() == state,
            r.status_spec() == SyncStatus::Syncing,
    {
        SubscriberStateWrapper { state, sync_status: SyncStatus::Syncing }
    }

    /// The synchronisation status.
    pub fn sync_status(&self) -> (r: SyncStatus)
        ensures
            r == self.status_spec(),
    {
        self.sync_status
    }

    /// Get a reference to the inner state.
    pub fn state(&self) -> (r: &S)
        ensures
            *r == self.state_spec(),
    {
        &self.state
    }

    /// Get a mutable reference to the inner state.
    pub fn state_mut(&mut self) -> (r: &mut S)
        ensures
            *r == old(self).state_spec(),
            final(self).state_spec() == *final(r),
            final(self).status_spec() == old(self).status_spec(),
    {
        &mut self.state
    }

    /// Records that the publisher was not heard from in time.
    pub fn mark_missed_heartbeat(&mut self)
        ensures
            final(self).status_spec() == SyncStatus::MissedHeartbeat,
            final(self).state_spec() == old(self).state_spec(),
    {
        self.sync_status = SyncStatus::MissedHeartbeat;
    }

    /// Records that an in-sequence message was handled: one that came on
    /// the live stream shows the state to be in sync; one replayed from
    /// the buffer leaves the status as it was.
    pub fn mark_in_sequence(&mut self, streaming: bool)
        ensures
            final(self).status_spec() == if streaming {
                SyncStatus::Sync
            } else {
                old(self).status_spec()
            },
            final(self).state_spec() == old(self).state_spec(),
    {
        if streaming {
            self.sync_status = SyncStatus::Sync;
        }
    }
}

/// What handling a message or a wait did to the subscriber's state.
#[derive(Debug, Clone, PartialEq, Eq)]
pub enum ApplyAction<S: StateSync> {
    /// Stick this on the heap to process later. Sequence is higher than
    /// desired.
    Store(i64),
    /// Ignore this message. Sequence is lower than desired.
    Discard(i64),
    /// In sequence no-operation. The message is a heartbeat.
    InSequenceNoOp,
    /// An in-sequence delta has been applied. A copy is returned.
    Delta(S::Delta),
    /// The internal state has been cleared. Old state is provided.
    Reset(S),
    /// There are no messages coming from the publisher
    Timeout,
    /// Given up waiting for out of sequence packet
    Recover,
}

/// The status after an in-sequence message: in sync when it came on the
/// live stream, as it was when it was replayed from the buffer.
pub open spec fn status_after(before: SyncStatus, streaming: bool) -> SyncStatus {
    if streaming {
        SyncStatus::Sync
    } else {
        before
    }
}

/// Plays an in-sequence message through the subscriber's state.
///
/// A start clears the state (the old state is handed back); a heartbeat
/// changes nothing; a delta (given twice: once to apply, once to hand
/// back) is applied. A message that came on the live stream (`streaming`)
/// shows the state to be in sync. An error of applying the delta is handed
/// back, and the status is then left as it was.
pub fn apply_in_sequence<S: StateSync>(
    w: &mut SubscriberStateWrapper<S>,
    msg: SubscriberStreamMessage<(S::Delta, S::Delta)>,
    streaming: bool,
) -> (r: Result<ApplyAction<S>, S::ApplyError>)
    requires
        msg matches SubscriberStreamMessage::Delta((d, _)) ==> old(w).state_spec().accepts_delta(d),
    ensures
        !streaming ==> final(w).status_spec() == old(w).status_spec(),
        streaming && r is Ok ==> final(w).status_spec() == SyncStatus::Sync,
        match msg {
            SubscriberStreamMessage::Started => {
                &&& r == Ok::<ApplyAction<S>, S::ApplyError>(ApplyAction::Reset(old(w).state_spec()))
                &&& call_ensures(S::default, (), final(w).state_spec())
                &&& final(w).status_spec() == status_after(old(w).status_spec(), streaming)
            },
            SubscriberStreamMessage::Heartbeat => {
                &&& r == Ok::<ApplyAction<S>, S::ApplyError>(ApplyAction::InSequenceNoOp)
                &&& final(w).state_spec() == old(w).state_spec()
                &&& final(w).status_spec() == status_after(old(w).status_spec(), streaming)
            },
            SubscriberStreamMessage::Delta((d, copy)) => (r is Ok <==> old(
                w,
            ).state_spec().apply_succeeds(d)) && match r {
                Ok(a) => {
                    &&& a == ApplyAction::<S>::Delta(copy)
                    &&& old(w).state_spec().delta_yields(d, final(w).state_spec())
                    &&& final(w).status_spec() == status_after(old(w).status_spec(), streaming)
                },
                Err(_) => final(w).status_spec() == old(w).status_spec(),
            },
        },
{
    match msg {
        SubscriberStreamMessage::Started => {
            let mut previous = S::default();
            std::mem::swap(&mut w.state, &mut previous);
            w.mark_in_sequence(streaming);
            Ok(ApplyAction::Reset(previous))
        },
        SubscriberStreamMessage::Heartbeat => {
            w.mark_in_sequence(streaming);
            Ok(ApplyAction::InSequenceNoOp)
        },
        SubscriberStreamMessage::Delta((delta, copy)) => {
            match w.state.apply_delta(delta) {
                Ok(()) => {
                    w.mark_in_sequence(streaming);
                    Ok(ApplyAction::Delta(copy))
                },
                Err(e) => Err(e),
            }
        },
    }
}

/// A message replayed from the buffer leaves the status as it was, and
/// one that came on the live stream shows the state to be in sync.
pub proof fn lemma_only_streamed_messages_sync(before: SyncStatus)
    ensures
        status_after(before, false) == before,
        status_after(before, true) == SyncStatus::Sync,
{
}

} // verus!
