//! The publisher's state together with its next sequence number.
use vstd::prelude::*;

use crate::clock::now_nanos;
use crate::proto::grapevine::raw_message::Payload;
use crate::proto::grapevine::{Delta, Heartbeat, RawMessage, Started};
use crate::publisher::delta_message;
use crate::state_sync::StateSync;

verus! {

/// Wraps a state type S along with the next sequence for this publisher.
#[derive(Debug, Default)]
pub struct PublisherStateWrapper<S> {
    state: S,
    sequence: i64,
}

impl<S> PublisherStateWrapper<S> {
    /// The wrapped state.
    pub closed spec fn state_spec(&self) -> S {
        self.state
    }

    /// The sequence the next message will carry.
    pub closed spec fn sequence_spec(&self) -> i64 {
        self.sequence
    }

    /// A wrapper of `state` whose next message carries `sequence`.
    pub fn from_parts(state: S, sequence: i64) -> (r: Self)
        ensures
            r.state_spec() == state,
            r.sequence_spec() == sequence,
    {
        PublisherStateWrapper { state, sequence }
    }

    /// Returns the current sequence and increments it.
    pub fn stamp(&mut self) -> (r: i64)
        requires
            old(self).sequence_spec() < i64::MAX,
        ensures
            stamp_step(*old(self), r, *final(self)),
    {
        let seq = self.sequence;
        self.sequence = self.sequence + 1;
        seq
    }

    /// Get a mutable reference to the inner state.
    pub fn state_mut(&mut self) -> (r: &mut S)
        ensures
            *r == old(self).state_spec(),
            final(self).state_spec() == *final(r),
            final(self).sequence_spec() == old(self).sequence_spec(),
    {
        &mut self.state
    }

    /// Get a reference to the inner state.
    pub fn state(&self) -> (r: &S)
        ensures
            *r == self.state_spec(),
    {
        &self.state
    }

    /// The sequence the next message will carry.
    pub fn sequence(&self) -> (r: i64)
        ensures
            r == self.sequence_spec(),
    {
        self.sequence
    }

    /// Stamps a message carrying `payload` with the next sequence and the
    /// current time.
    pub fn stamp_message(&mut self, payload: Payload) -> (r: RawMessage)
        requires
            old(self).sequence_spec() < i64::MAX,
        ensures
            r.metadata.sequence == old(self).sequence_spec(),
            r.payload == Some(payload),
            final(self).sequence_spec() == old(self).sequence_spec() + 1,
            final(self).state_spec() == old(self).state_spec(),
    {
        let sequence = self.stamp();
        RawMessage::stamped(sequence, now_nanos(), payload)
    }

    /// The next heartbeat: a publisher signals that it is alive with a
    /// message of its own sequence.
    pub fn heartbeat_message(&mut self) -> (r: RawMessage)
        requires
            old(self).sequence_spec() < i64::MAX,
        ensures
            r.metadata.sequence == old(self).sequence_spec(),
            r.payload == Some(Payload::Heartbeat(Heartbeat {})),
            final(self).sequence_spec() == old(self).sequence_spec() + 1,
            final(self).state_spec() == old(self).state_spec(),
    {
        self.stamp_message(Payload::Heartbeat(Heartbeat {}))
    }

    /// The message a publisher sends when it starts publishing.
    pub fn started_message(&mut self) -> (r: RawMessage)
        requires
            old(self).sequence_spec() < i64::MAX,
        ensures
            r.metadata.sequence == old(self).sequence_spec(),
            r.payload == Some(Payload::Started(Started {})),
            final(self).sequence_spec() == old(self).sequence_spec() + 1,
            final(self).state_spec() == old(self).state_spec(),
    {
        self.stamp_message(Payload::Started(Started {}))
    }
}

impl<S: Default> PublisherStateWrapper<S> {
    /// Create an empty state with the given sequence.
    pub fn with_sequence(sequence: i64) -> (r: Self)
        ensures
            r.sequence_spec() == sequence,
            call_ensures(S::default, (), r.state_spec()),
    {
        PublisherStateWrapper { state: S::default(), sequence }
    }
}

/// Applies `delta` to the publisher's state and, once it applied, stamps
/// the message that carries its encoding `body` with the next sequence.
/// An error of applying the delta is handed back and nothing is stamped,
/// so that subscribers see every sequence.
pub fn stamp_and_apply<S: StateSync>(
    w: &mut PublisherStateWrapper<S>,
    delta: S::Delta,
    body: Vec<u8>,
) -> (r: Result<RawMessage, S::ApplyError>)
    requires
        old(w).sequence_spec() < i64::MAX,
        old(w).state_spec().accepts_delta(delta),
    ensures
        r is Ok <==> old(w).state_spec().apply_succeeds(delta),
        match r {
            Ok(m) => {
                &&& m.metadata.sequence == old(w).sequence_spec()
                &&& m.payload == Some(Payload::Delta(Delta { body }))
                &&& final(w).sequence_spec() == old(w).sequence_spec() + 1
                &&& old(w).state_spec().delta_yields(delta, final(w).state_spec())
            },
            Err(_) => final(w).sequence_spec() == old(w).sequence_spec(),
        },
{
    match w.state.apply_delta(delta) {
        Ok(()) => {
            let sequence = w.stamp();
            Ok(delta_message(sequence, body))
        },
        Err(e) => Err(e),
    }
}

/// One stamp: `r` is the sequence `before` held, and `after` holds the
/// next one and the same state.
pub open spec fn stamp_step<S>(
    before: PublisherStateWrapper<S>,
    r: i64,
    after: PublisherStateWrapper<S>,
) -> bool {
    &&& r == before.sequence_spec()
    &&& after.sequence_spec() == before.sequence_spec() + 1
    &&& after.state_spec() == before.state_spec()
}

/// Sequences are unique and increasing: along any run of stamps, where
/// `states[i]` is the wrapper before the `i`-th stamp and `states[i + 1]`
/// the one after it, the `i`-th stamp returns the first sequence plus `i`,
/// so that later stamps return strictly greater sequences.
pub proof fn lemma_stamps_are_consecutive<S>(
    states: Seq<PublisherStateWrapper<S>>,
    stamps: Seq<i64>,
)
    requires
        states.len() == stamps.len() + 1,
        forall|i: int| 0 <= i < stamps.len() ==> #[trigger] stamp_step(states[i], stamps[i], states[i + 1]),
    ensures
        forall|i: int| 0 <= i < stamps.len() ==> #[trigger] stamps[i] == states[0].sequence_spec() + i,
        states.last().sequence_spec() == states[0].sequence_spec() + stamps.len(),
        forall|i: int, j: int| 0 <= i < j < stamps.len() ==> stamps[i] < stamps[j],
    decreases stamps.len(),
{
    if stamps.len() > 0 {
        let n = stamps.len() - 1;
        let init_states = states.drop_last();
        let init_stamps = stamps.drop_last();
        assert forall|i: int| 0 <= i < init_stamps.len() implies #[trigger] stamp_step(
            init_states[i],
            init_stamps[i],
            init_states[i + 1],
        ) by {
            assert(stamp_step(states[i], stamps[i], states[i + 1]));
        }
        lemma_stamps_are_consecutive(init_states, init_stamps);
        assert(stamp_step(states[n], stamps[n], states[n + 1]));
        assert(init_states.last() == states[n]);
        assert forall|i: int| 0 <= i < stamps.len() implies #[trigger] stamps[i]
            == states[0].sequence_spec() + i by {
            if i < n {
                assert(init_stamps[i] == stamps[i]);
            }
        }
    }
}

} // verus!
