//! The decisions of the exactly-once subscriber stream.
//!
//! Messages that arrive ahead of the wanted sequence are buffered; those
//! behind it are dropped; the one wanted is applied. When the wanted
//! message does not come, the buffer tells whether to keep listening, to
//! request the missing messages one by one, or to request a restream.
//! The I/O (socket, recovery client, persistence, clock) stays with the
//! caller, which hands each event to [`StreamState`].
use vstd::multiset::Multiset;
use vstd::prelude::*;

use crate::proto::grapevine::RawMessage;
use crate::subscriber::errors::IrrecoverableError;
use crate::subscriber::heap::{SequenceHeap, Sequenced};
use crate::subscriber::order::delivery_step;
use crate::subscriber::state_wrapper::SubscriberStateWrapper;
use crate::subscriber::sync_status::SyncStatus;

verus! {

/// The set of errors we can get reading a framed message.
#[derive(Debug, Copy, Clone, PartialEq, Eq, Structural)]
pub enum RecvError {
    /// No messages were received within the specified time.
    Timeout,
    /// Internal error from the framing layer.
    IoError,
    /// The underlying socket ended, indicating it was disconnected.
    SocketDisconnect,
}

/// What became of a received message or of a failed receive.
#[derive(Debug, Clone, PartialEq, Eq)]
pub enum RecvAction {
    /// The message is the wanted one: it is to be applied now.
    InSequence(RawMessage),
    /// The message is ahead of the wanted one and was buffered.
    Store(i64),
    /// The message is behind the wanted one and was dropped.
    Discard(i64),
    /// Nothing arrived and nothing is buffered: a heartbeat was missed.
    Timeout,
    /// Nothing arrived while messages wait in the buffer: the missing ones
    /// are to be recovered.
    Recover,
}

/// What to do about the buffered messages.
#[derive(Debug, Clone, Copy, PartialEq, Eq)]
pub enum SyncStrategyAction {
    /// There was no evidence from the buffer that we should do anything in
    /// particular: it was empty or held only old messages.
    ListenDefault,
    /// The next buffered message is ahead of the wanted one but was sent
    /// recently: listen for the given nanoseconds more before giving up on
    /// the missing one.
    Listen(u128),
    /// A small number of messages is missing: recover them one by one.
    Recover,
    /// Too many messages are missing to request them one by one: restream.
    Restream,
}

/// One step of working through the buffer.
#[derive(Debug, Clone, PartialEq, Eq)]
pub enum HeapStep {
    /// The wanted message was buffered: it is to be applied now.
    Apply(RawMessage),
    /// Nothing more can be applied: what to do next.
    Strategy(SyncStrategyAction),
}

/// The sequence a subscriber wants first, given the last sequence in its
/// replica log: the one following it, or 0 when nothing was ever received.
pub open spec fn first_wanted(last_sequence: Option<i64>) -> int {
    match last_sequence {
        Some(s) => s + 1,
        None => 0,
    }
}

/// The strategy when `least` is the first buffered message, ahead of the
/// wanted sequence `want`, and `len` messages are buffered: listen while
/// the message is younger than the tolerance, then recover one by one or
/// restream depending on how many messages seem to be missing.
pub open spec fn strategy_for(
    least: RawMessage,
    want: i64,
    len: nat,
    now: i64,
    tolerance: u64,
    heap_size_to_sync: usize,
) -> SyncStrategyAction {
    let wait = least.metadata.timestamp + tolerance - now;
    let missing = least.metadata.sequence - want;
    let effective_len = if len >= missing {
        len as int
    } else {
        missing
    };
    if wait > 0 {
        SyncStrategyAction::Listen(wait as u128)
    } else if effective_len > heap_size_to_sync {
        SyncStrategyAction::Restream
    } else {
        SyncStrategyAction::Recover
    }
}

/// A message that arrived ahead of the wanted one is waited for while it is
/// younger than the tolerance: the strategy is then to listen for what
/// remains of the tolerance, however many messages are buffered or missing.
pub proof fn lemma_strategy_waits_within_tolerance(
    least: RawMessage,
    want: i64,
    len: nat,
    now: i64,
    tolerance: u64,
    heap_size_to_sync: usize,
)
    requires
        least.metadata.timestamp + tolerance > now,
    ensures
        strategy_for(least, want, len, now, tolerance, heap_size_to_sync)
            == SyncStrategyAction::Listen((least.metadata.timestamp + tolerance - now) as u128),
{
}

/// Once the tolerance has passed, the missing messages are restreamed when
/// more messages are buffered, or more are missing before the first
/// buffered one, than the threshold allows, and recovered one by one
/// otherwise.
pub proof fn lemma_strategy_after_tolerance(
    least: RawMessage,
    want: i64,
    len: nat,
    now: i64,
    tolerance: u64,
    heap_size_to_sync: usize,
)
    requires
        least.metadata.timestamp + tolerance <= now,
    ensures
        strategy_for(least, want, len, now, tolerance, heap_size_to_sync) == if len
            > heap_size_to_sync || least.metadata.sequence - want > heap_size_to_sync {
            SyncStrategyAction::Restream
        } else {
            SyncStrategyAction::Recover
        },
{
}

/// `new` holds every message of `old`, but for those of a sequence below
/// `want`, which it holds none of.
pub open spec fn stale_dropped(old: Multiset<RawMessage>, new: Multiset<RawMessage>, want: i64) -> bool {
    forall|y: RawMessage| #[trigger]
        new.count(y) == if y.seq_of() < want {
            0
        } else {
            old.count(y)
        }
}

/// The subscriber stream's state: the next sequence it wants, the messages
/// received ahead of it, and how many missing messages it will recover one
/// by one before it asks for a restream.
pub struct StreamState {
    heap: SequenceHeap<RawMessage>,
    want_sequence: i64,
    heap_size_to_sync: usize,
}

impl StreamState {
    /// Every buffered message can be counted past, and its distance from
    /// the wanted sequence fits in an `i64`.
    pub closed spec fn wf(&self) -> bool {
        forall|y: RawMessage| #[trigger]
            self.heap.contents().contains(y) ==> y.seq_of() < i64::MAX && y.seq_of()
                - self.want_sequence <= i64::MAX
    }

    /// The messages received ahead of the wanted one.
    pub closed spec fn buffered(&self) -> Multiset<RawMessage> {
        self.heap.contents()
    }

    /// The sequence of the next message to apply.
    pub closed spec fn wanted(&self) -> i64 {
        self.want_sequence
    }

    /// The number of missing messages beyond which a restream is requested.
    pub closed spec fn sync_threshold(&self) -> usize {
        self.heap_size_to_sync
    }

    /// A message can be taken in: it can be counted past, and it is not so
    /// far ahead that its distance from the wanted sequence overflows.
    pub open spec fn accepts(&self, msg: RawMessage) -> bool {
        msg.seq_of() < i64::MAX && msg.seq_of() - self.wanted() <= i64::MAX
    }

    /// A stream state that wants the sequence following the replica log's
    /// last one (or 0), and restreams when more than `heap_size_to_sync`
    /// messages are missing.
    pub fn new(last_sequence: Option<i64>, heap_size_to_sync: usize) -> (r: Self)
        requires
            last_sequence matches Some(s) ==> s < i64::MAX,
        ensures
            r.wf(),
            r.buffered() =~= Multiset::<RawMessage>::empty(),
            r.wanted() == first_wanted(last_sequence),
            r.sync_threshold() == heap_size_to_sync,
    {
        let want_sequence = match last_sequence {
            Some(s) => s + 1,
            None => 0,
        };
        StreamState { heap: SequenceHeap::new(), want_sequence, heap_size_to_sync }
    }

    /// The sequence of the next message to apply.
    pub fn want_sequence(&self) -> (r: i64)
        ensures
            r == self.wanted(),
    {
        self.want_sequence
    }

    /// The number of buffered messages.
    pub fn buffered_len(&self) -> (r: usize)
        ensures
            r == self.buffered().len(),
    {
        self.heap.len()
    }

    /// Buffers a recovered message, to be applied in its turn.
    pub fn push_recovered(&mut self, msg: RawMessage)
        requires
            old(self).wf(),
            old(self).accepts(msg),
        ensures
            final(self).wf(),
            delivery_step(old(self).wanted(), None, final(self).wanted()),
            final(self).buffered() == old(self).buffered().insert(msg),
            final(self).wanted() == old(self).wanted(),
            final(self).sync_threshold() == old(self).sync_threshold(),
    {
        let ghost before = self.heap.contents();
        self.heap.push(msg);
        proof {
            broadcast use vstd::multiset::group_multiset_axioms;

            assert forall|y: RawMessage| #[trigger] self.heap.contents().contains(y) implies y.seq_of()
                < i64::MAX && y.seq_of() - self.want_sequence <= i64::MAX by {
                if y != msg {
                    assert(before.contains(y));
                }
            }
        }
    }

    /// Handles the result of waiting for the next frame.
    ///
    /// The wanted message is to be applied (the wanted sequence moves on);
    /// a later one is buffered; an earlier one is dropped. A timeout means a
    /// missed heartbeat when nothing is buffered, which is recorded in the
    /// subscriber's status `w`, and that the missing messages are to be
    /// recovered otherwise. A closed socket and a read error are
    /// irrecoverable.
    pub fn handle_recv<S>(
        &mut self,
        result: Result<RawMessage, RecvError>,
        w: &mut SubscriberStateWrapper<S>,
    ) -> (r: Result<RecvAction, IrrecoverableError>)
        requires
            old(self).wf(),
            result matches Ok(msg) ==> old(self).accepts(msg),
        ensures
            final(self).wf(),
            if result == Err::<RawMessage, RecvError>(RecvError::Timeout) && old(self).buffered().len()
                == 0 {
                &&& final(w).status_spec() == SyncStatus::MissedHeartbeat
                &&& final(w).state_spec() == old(w).state_spec()
            } else {
                *final(w) == *old(w)
            },
            delivery_step(
                old(self).wanted(),
                match r {
                    Ok(RecvAction::InSequence(m)) => Some(m.seq_of()),
                    _ => None,
                },
                final(self).wanted(),
            ),
            final(self).sync_threshold() == old(self).sync_threshold(),
            match result {
                Ok(msg) => {
                    if msg.seq_of() == old(self).wanted() {
                        &&& r == Ok::<RecvAction, IrrecoverableError>(RecvAction::InSequence(msg))
                        &&& final(self).wanted() == old(self).wanted() + 1
                        &&& final(self).buffered() == old(self).buffered()
                    } else if msg.seq_of() > old(self).wanted() {
                        &&& r == Ok::<RecvAction, IrrecoverableError>(RecvAction::Store(msg.seq_of()))
                        &&& final(self).wanted() == old(self).wanted()
                        &&& final(self).buffered() == old(self).buffered().insert(msg)
                    } else {
                        &&& r == Ok::<RecvAction, IrrecoverableError>(RecvAction::Discard(msg.seq_of()))
                        &&& final(self).wanted() == old(self).wanted()
                        &&& final(self).buffered() == old(self).buffered()
                    }
                },
                Err(e) => {
                    &&& final(self).wanted() == old(self).wanted()
                    &&& final(self).buffered() == old(self).buffered()
                    &&& r == match e {
                        RecvError::Timeout => if old(self).buffered().len() == 0 {
                            Ok::<RecvAction, IrrecoverableError>(RecvAction::Timeout)
                        } else {
                            Ok::<RecvAction, IrrecoverableError>(RecvAction::Recover)
                        },
                        RecvError::SocketDisconnect => Err::<RecvAction, IrrecoverableError>(
                            IrrecoverableError::SocketDisconnect,
                        ),
                        RecvError::IoError => Err::<RecvAction, IrrecoverableError>(
                            IrrecoverableError::IoError,
                        ),
                    }
                },
            },
    {
        match result {
            Ok(msg) => {
                let sequence = msg.sequence();
                if sequence == self.want_sequence {
                    self.want_sequence = self.want_sequence + 1;
                    proof {
                        assert forall|y: RawMessage| #[trigger]
                            self.heap.contents().contains(y) implies y.seq_of() < i64::MAX
                            && y.seq_of() - self.want_sequence <= i64::MAX by {
                            assert(old(self).heap.contents().contains(y));
                        }
                    }
                    Ok(RecvAction::InSequence(msg))
                } else if sequence > self.want_sequence {
                    self.push_recovered(msg);
                    Ok(RecvAction::Store(sequence))
                } else {
                    Ok(RecvAction::Discard(sequence))
                }
            },
            Err(e) => match e {
                RecvError::Timeout => {
                    if self.heap.is_empty() {
                        w.mark_missed_heartbeat();
                        Ok(RecvAction::Timeout)
                    } else {
                        Ok(RecvAction::Recover)
                    }
                },
                RecvError::SocketDisconnect => Err(IrrecoverableError::SocketDisconnect),
                RecvError::IoError => Err(IrrecoverableError::IoError),
            },
        }
    }

    /// Works through the buffer at time `now`: drops the messages behind
    /// the wanted sequence, hands out the wanted one if it is buffered, and
    /// otherwise decides what to do about the first buffered message, given
    /// `tolerance` nanoseconds for an out-of-order message to show up.
    pub fn process_heap(&mut self, now: i64, tolerance: u64) -> (r: HeapStep)
        requires
            old(self).wf(),
        ensures
            final(self).wf(),
            delivery_step(
                old(self).wanted(),
                match r {
                    HeapStep::Apply(m) => Some(m.seq_of()),
                    _ => None,
                },
                final(self).wanted(),
            ),
            final(self).sync_threshold() == old(self).sync_threshold(),
            (exists|m: RawMessage| #[trigger] old(self).buffered().contains(m) && m.seq_of()
                == old(self).wanted()) ==> r is Apply,
            match r {
                HeapStep::Apply(m) => {
                    &&& m.seq_of() == old(self).wanted()
                    &&& old(self).buffered().contains(m)
                    &&& stale_dropped(old(self).buffered(), final(self).buffered().insert(m), old(self).wanted())
                    &&& final(self).wanted() == old(self).wanted() + 1
                },
                HeapStep::Strategy(a) => {
                    &&& final(self).wanted() == old(self).wanted()
                    &&& stale_dropped(old(self).buffered(), final(self).buffered(), old(self).wanted())
                    &&& forall|y: RawMessage| #[trigger]
                        final(self).buffered().contains(y) ==> y.seq_of() > old(self).wanted()
                    &&& final(self).buffered().len() == 0 ==> a == SyncStrategyAction::ListenDefault
                    &&& final(self).buffered().len() > 0 ==> exists|x: RawMessage| #[trigger]
                        final(self).buffered().contains(x) && (forall|y: RawMessage| #[trigger]
                            final(self).buffered().contains(y) ==> x.seq_of() <= y.seq_of()) && a
                            == strategy_for(
                            x,
                            old(self).wanted(),
                            final(self).buffered().len(),
                            now,
                            tolerance,
                            old(self).sync_threshold(),
                        )
                },
            },
            r matches HeapStep::Strategy(a) ==> final(self).buffered().len() > 0 ==> exists|
                x: RawMessage,
            |
                #[trigger] final(self).buffered().contains(x) && (forall|y: RawMessage| #[trigger]
                    final(self).buffered().contains(y) ==> x.seq_of() <= y.seq_of()) && (
                x.metadata.timestamp + tolerance > now <==> a is Listen) && (a matches SyncStrategyAction::Listen(
                    t,
                ) ==> t == x.metadata.timestamp + tolerance - now) && (!(a is Listen) ==> (a
                    == SyncStrategyAction::Restream <==> (final(self).buffered().len() > old(
                    self,
                ).sync_threshold() || x.seq_of() - old(self).wanted() > old(self).sync_threshold())))
                    && (!(a is Listen) ==> (a is Recover || a is Restream)),
    {
        let ghost start = self.heap.contents();
        let want = self.want_sequence;
        loop
            invariant
                forall|y: RawMessage| #[trigger]
                    self.heap.contents().contains(y) ==> y.seq_of() < i64::MAX && y.seq_of() - want
                        <= i64::MAX,
                self.want_sequence == want,
                want == old(self).want_sequence,
                self.heap_size_to_sync == old(self).heap_size_to_sync,
                start == old(self).heap.contents(),
                forall|y: RawMessage| #[trigger]
                    self.heap.contents().count(y) == if y.seq_of() >= want {
                        start.count(y)
                    } else {
                        self.heap.contents().count(y)
                    },
                forall|y: RawMessage| #[trigger] self.heap.contents().count(y) <= start.count(y),
            ensures
                forall|y: RawMessage| #[trigger]
                    self.heap.contents().contains(y) ==> y.seq_of() < i64::MAX && y.seq_of() - want
                        <= i64::MAX,
                self.want_sequence == want,
                self.heap_size_to_sync == old(self).heap_size_to_sync,
                forall|y: RawMessage| #[trigger]
                    self.heap.contents().count(y) == if y.seq_of() >= want {
                        start.count(y)
                    } else {
                        self.heap.contents().count(y)
                    },
                forall|y: RawMessage| #[trigger]
                    self.heap.contents().contains(y) ==> y.seq_of() > want,
            decreases self.heap.contents().len(),
        {
            let next = self.heap.peek();
            match next {
                None => {
                    proof {
                        broadcast use vstd::multiset::group_multiset_axioms;

                    }
                    break;
                },
                Some(m) => {
                    let sequence = m.sequence();
                    let ghost least = *m;
                    if sequence == want {
                        let ghost before = self.heap.contents();
                        // just peeked: the heap holds a message
                        let msg = self.heap.pop().unwrap();
                        self.want_sequence = want + 1;
                        proof {
                            broadcast use vstd::multiset::group_multiset_axioms;

                            assert(before.contains(msg));
                            assert(before.contains(least));
                            assert(msg.seq_of() == want);
                            assert forall|y: RawMessage| #[trigger]
                                self.heap.contents().contains(y) implies y.seq_of() < i64::MAX
                                && y.seq_of() - self.want_sequence <= i64::MAX by {
                                assert(before.contains(y));
                            }
                            assert forall|y: RawMessage| #[trigger]
                                self.heap.contents().insert(msg).count(y) == if y.seq_of() < want {
                                    0
                                } else {
                                    start.count(y)
                                } by {
                                if y.seq_of() < want {
                                    if before.count(y) > 0 {
                                        assert(before.contains(y));
                                    }
                                }
                            }
                        }
                        return HeapStep::Apply(msg);
                    } else if sequence < want {
                        let ghost before = self.heap.contents();
                        let gone = self.heap.pop();
                        proof {
                            broadcast use vstd::multiset::group_multiset_axioms;

                            let g = gone.unwrap();
                            assert(before.contains(least));
                            assert(g.seq_of() <= sequence);
                            assert forall|y: RawMessage| #[trigger]
                                self.heap.contents().contains(y) implies y.seq_of() < i64::MAX
                                && y.seq_of() - want <= i64::MAX by {
                                assert(before.contains(y));
                            }
                        }
                    } else {
                        proof {
                            assert forall|y: RawMessage| #[trigger]
                                self.heap.contents().contains(y) implies y.seq_of() > want by {
                                assert(least.seq_of() <= y.seq_of());
                            }
                        }
                        break;
                    }
                },
            }
        }
        proof {
            broadcast use vstd::multiset::group_multiset_axioms;

            assert forall|y: RawMessage| #[trigger]
                self.heap.contents().count(y) == if y.seq_of() < want {
                    0
                } else {
                    start.count(y)
                } by {
                if y.seq_of() < want && self.heap.contents().count(y) > 0 {
                    assert(self.heap.contents().contains(y));
                }
            }
        }
        proof {
            // the wanted message, had it been buffered, would have been applied
            if exists|m: RawMessage| #[trigger] start.contains(m) && m.seq_of() == want {
                let m = choose|m: RawMessage| #[trigger] start.contains(m) && m.seq_of() == want;
                assert(self.heap.contents().count(m) == start.count(m));
                assert(self.heap.contents().contains(m));
            }
        }
        let next = self.heap.peek();
        match next {
            None => HeapStep::Strategy(SyncStrategyAction::ListenDefault),
            Some(m) => {
                let ghost least = *m;
                let sequence = m.sequence();
                // how long the message may still be waited for
                let wait: i128 = m.metadata.timestamp as i128 + tolerance as i128 - now as i128;
                let len = self.heap.len();
                proof {
                    assert(self.heap.contents().contains(least));
                }
                if wait > 0 {
                    HeapStep::Strategy(SyncStrategyAction::Listen(wait as u128))
                } else {
                    let missing: i128 = sequence as i128 - want as i128;
                    let effective_len: i128 = if len as i128 >= missing {
                        len as i128
                    } else {
                        missing
                    };
                    if effective_len > self.heap_size_to_sync as i128 {
                        // too many messages are missing to recover them one by one
                        HeapStep::Strategy(SyncStrategyAction::Restream)
                    } else {
                        // a small number of messages is missing
                        HeapStep::Strategy(SyncStrategyAction::Recover)
                    }
                }
            },
        }
    }

    /// Works through the buffer at time `now` as far as it goes: hands out,
    /// in sequence order, every buffered message from the wanted sequence on
    /// that follows without a gap, drops the messages behind the wanted
    /// sequence (duplicates of those handed out among them), and decides
    /// what to do about the first message left, as
    /// [`StreamState::process_heap`] does.
    pub fn take_ready_run(&mut self, now: i64, tolerance: u64) -> (r: (
        Vec<RawMessage>,
        SyncStrategyAction,
    ))
        requires
            old(self).wf(),
        ensures
            final(self).wf(),
            final(self).sync_threshold() == old(self).sync_threshold(),
            final(self).wanted() == old(self).wanted() + r.0@.len(),
            forall|i: int|
                0 <= i < r.0@.len() ==> #[trigger] r.0@[i].seq_of() == old(self).wanted() + i
                    && old(self).buffered().contains(r.0@[i]),
            stale_dropped(old(self).buffered(), final(self).buffered(), final(self).wanted()),
            forall|y: RawMessage| #[trigger]
                final(self).buffered().contains(y) ==> y.seq_of() > final(self).wanted(),
            final(self).buffered().len() == 0 ==> r.1 == SyncStrategyAction::ListenDefault,
            final(self).buffered().len() > 0 ==> exists|x: RawMessage| #[trigger]
                final(self).buffered().contains(x) && (forall|y: RawMessage| #[trigger]
                    final(self).buffered().contains(y) ==> x.seq_of() <= y.seq_of()) && r.1
                    == strategy_for(
                    x,
                    final(self).wanted(),
                    final(self).buffered().len(),
                    now,
                    tolerance,
                    old(self).sync_threshold(),
                ),
    {
        let mut run: Vec<RawMessage> = Vec::new();
        let ghost start = self.buffered();
        let ghost w0 = self.wanted();
        loop
            invariant
                self.wf(),
                self.sync_threshold() == old(self).sync_threshold(),
                start == old(self).buffered(),
                w0 == old(self).wanted(),
                self.wanted() == w0 + run@.len(),
                forall|i: int|
                    0 <= i < run@.len() ==> #[trigger] run@[i].seq_of() == w0 + i && start.contains(
                        run@[i],
                    ),
                forall|y: RawMessage| #[trigger]
                    self.buffered().count(y) == if y.seq_of() >= self.wanted() {
                        start.count(y)
                    } else {
                        self.buffered().count(y)
                    },
                forall|y: RawMessage| #[trigger] self.buffered().count(y) <= start.count(y),
            decreases self.buffered().len(),
        {
            let ghost before = self.buffered();
            let ghost want = self.wanted();
            match self.process_heap(now, tolerance) {
                HeapStep::Apply(m) => {
                    proof {
                        broadcast use vstd::multiset::group_multiset_axioms;

                        let after = self.buffered().insert(m);
                        assert(after.subset_of(before));
                        assert(before.sub(after).len() == before.len() - after.len());
                        assert(before.count(m) == start.count(m));
                        assert forall|y: RawMessage| #[trigger] self.buffered().count(y) <= start.count(
                            y,
                        ) by {
                            assert(self.buffered().count(y) <= after.count(y));
                        }
                        assert forall|y: RawMessage| y.seq_of() >= self.wanted() implies #[trigger]
                            self.buffered().count(y) == start.count(y) by {
                            assert(y != m);
                            assert(after.count(y) == self.buffered().count(y));
                        }
                    }
                    run.push(m);
                    proof {
                        assert forall|i: int| 0 <= i < run@.len() implies #[trigger] run@[i].seq_of()
                            == w0 + i && start.contains(run@[i]) by {
                            if i == run@.len() - 1 {
                                assert(run@[i] == m);
                            }
                        }
                    }
                },
                HeapStep::Strategy(a) => {
                    proof {
                        assert forall|y: RawMessage| #[trigger]
                            self.buffered().count(y) == if y.seq_of() < self.wanted() {
                                0
                            } else {
                                start.count(y)
                            } by {
                            assert(self.buffered().count(y) == if y.seq_of() < want {
                                0
                            } else {
                                before.count(y)
                            });
                        }
                    }
                    return (run, a);
                },
            }
        }
    }
}

} // verus!
