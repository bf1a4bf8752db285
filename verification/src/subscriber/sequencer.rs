//! The decisions of the message sequencer, which turns a stream of
//! messages that may arrive out of order, twice or not at all into a stream
//! of messages in sequence order.
//!
//! The sequencer's I/O (the socket, the recovery client, the clock) stays
//! with its caller: each event is handed to [`SequencerState`], which says
//! what to deliver, what to wait for and what to request.
use vstd::multiset::Multiset;
use vstd::prelude::*;

use crate::clock::{datetime_convertible, datetime_of, ns_to_datetime};
use crate::proto::grapevine::raw_message::Payload;
use crate::proto::grapevine::RawMessage;
use crate::subscriber::heap::Sequenced;
use crate::subscriber::message::{Origin, ReceivedMessage, SubscriberStreamMessage};
use crate::subscriber::min_max_heap::MinMaxHeap;
use crate::subscriber::order::{delivers, delivery_step, lemma_delivered_in_order};

verus! {

/// Errors of the sequenced stream.
#[derive(Debug, Clone, Copy, PartialEq, Eq)]
pub enum SubscriberStreamError {
    /// A recovered message did not carry the sequence that was asked for.
    InvalidSequence,
    /// A requested restream held no message.
    EmptyStream,
}

/// An event of the sequenced stream: a message in sequence order, or the
/// end of the publisher's stream. Times are UTC.
#[derive(Debug)]
pub enum SubscriberStream<T> {
    Message {
        /// according to sender
        send_ts: chrono::NaiveDateTime,
        /// according to our process
        recv_ts: chrono::NaiveDateTime,
        origin: Origin,
        msg: SubscriberStreamMessage<T>,
    },
    Disconnected,
}

/// What the sequencer should do next while listening.
#[derive(Debug, Clone, Copy, PartialEq, Eq)]
pub enum ListenAction {
    /// Wait at most this many nanoseconds for the next message.
    Wait(u128),
    /// Only the wanted message is missing: request it alone.
    RequestMissing(i64),
    /// More than the wanted message is missing: request a restream from
    /// this sequence.
    RequestStream(i64),
    /// Nothing arrived before the deadline and nothing is buffered: the
    /// publisher is gone.
    Disconnected,
}

/// The sequencer's state: the next sequence it wants, the messages received
/// ahead of it, and the deadline by which the wanted message must arrive
/// before it is requested. Times are nanoseconds on a monotonic clock that
/// the caller reads.
pub struct SequencerState {
    heap: MinMaxHeap,
    sequence_timeout: u64,
    want_sequence: i64,
    last_deadline: u128,
    connected: bool,
}

/// `new` holds every message of `old`, but for those of a sequence below
/// `want`, which it holds none of.
pub open spec fn stale_dropped(
    old: Multiset<ReceivedMessage>,
    new: Multiset<ReceivedMessage>,
    want: i64,
) -> bool {
    forall|y: ReceivedMessage| #[trigger]
        new.count(y) == if y.seq_of() < want {
            0
        } else {
            old.count(y)
        }
}

/// An event of a sequencer's run, as the caller hands it over.
pub enum SequencerEvent {
    /// A message received on the socket ([`SequencerState::on_udp_message`]).
    Udp(ReceivedMessage),
    /// A look into the buffer ([`SequencerState::take_ready`]) and what it
    /// gave.
    Ready(Option<ReceivedMessage>),
    /// A decision while waiting ([`SequencerState::on_tick`]).
    Tick,
    /// A recovered message ([`SequencerState::on_recovered`]), taken or
    /// refused.
    Recovered(bool),
}

/// A message of sequence `s` is buffered.
pub open spec fn buffers(st: SequencerState, s: i64) -> bool {
    exists|y: ReceivedMessage| #[trigger] st.buffered().contains(y) && y.seq_of() == s
}

/// What an event does to the wanted sequence and to the buffer: a message
/// received is delivered when wanted and buffered when early; a look into
/// the buffer delivers the wanted message when it is there and drops the
/// stale ones; a decision while waiting changes neither; a recovered
/// message that is taken moves the wanted sequence on.
pub open spec fn event_step(before: SequencerState, e: SequencerEvent, after: SequencerState) -> bool {
    match e {
        SequencerEvent::Udp(m) => {
            &&& after.wanted() == if m.seq_of() == before.wanted() {
                before.wanted() + 1
            } else {
                before.wanted() as int
            }
            &&& after.buffered() == if m.seq_of() > before.wanted() {
                before.buffered().insert(m)
            } else {
                before.buffered()
            }
        },
        SequencerEvent::Ready(r) => match r {
            Some(m) => {
                &&& m.seq_of() == before.wanted()
                &&& after.wanted() == before.wanted() + 1
                &&& stale_dropped(before.buffered(), after.buffered().insert(m), before.wanted())
            },
            None => {
                &&& after.wanted() == before.wanted()
                &&& stale_dropped(before.buffered(), after.buffered(), before.wanted())
                &&& forall|y: ReceivedMessage| #[trigger]
                    after.buffered().contains(y) ==> y.seq_of() > before.wanted()
            },
        },
        SequencerEvent::Tick => after.wanted() == before.wanted() && after.buffered()
            == before.buffered(),
        SequencerEvent::Recovered(taken) => {
            &&& after.buffered() == before.buffered()
            &&& after.wanted() == if taken {
                before.wanted() + 1
            } else {
                before.wanted() as int
            }
        },
    }
}

/// The sequence an event delivers, if it delivers one.
pub open spec fn delivered_of(before: SequencerState, e: SequencerEvent) -> Option<i64> {
    match e {
        SequencerEvent::Udp(m) => if m.seq_of() == before.wanted() {
            Some(m.seq_of())
        } else {
            None
        },
        SequencerEvent::Ready(r) => match r {
            Some(m) => Some(m.seq_of()),
            None => None,
        },
        SequencerEvent::Tick => None,
        SequencerEvent::Recovered(taken) => if taken {
            Some(before.wanted())
        } else {
            None
        },
    }
}

/// Some event before the `k`-th received a message of sequence `s` on the
/// socket.
pub open spec fn received_before(events: Seq<SequencerEvent>, k: int, s: i64) -> bool {
    exists|i: int|
        0 <= i < k && (#[trigger] events[i] matches SequencerEvent::Udp(m) && m.seq_of() == s)
}

/// A run of events: `states[i + 1]` is what the `i`-th event made of
/// `states[i]`.
pub open spec fn is_run(states: Seq<SequencerState>, events: Seq<SequencerEvent>) -> bool {
    &&& states.len() == events.len() + 1
    &&& forall|i: int|
        #![trigger events[i]]
        0 <= i < events.len() ==> event_step(states[i], events[i], states[i + 1])
}

/// What a run delivers, event by event.
pub open spec fn deliveries(states: Seq<SequencerState>, events: Seq<SequencerEvent>) -> Seq<
    Option<i64>,
> {
    Seq::new(events.len(), |i: int| delivered_of(states[i], events[i]))
}

/// Along a run, a message received at or after the wanted sequence stays
/// buffered until its turn, and the wanted sequence never goes back.
proof fn lemma_received_stay_buffered(
    states: Seq<SequencerState>,
    events: Seq<SequencerEvent>,
    k: int,
)
    requires
        is_run(states, events),
        0 <= k <= events.len(),
    ensures
        states[k].wanted() >= states[0].wanted(),
        forall|s: i64|
            s >= states[k].wanted() && #[trigger] received_before(events, k, s) ==> buffers(
                states[k],
                s,
            ),
    decreases k,
{
    broadcast use vstd::multiset::group_multiset_axioms;

    if k > 0 {
        lemma_received_stay_buffered(states, events, k - 1);
        let before = states[k - 1];
        let after = states[k];
        let e = events[k - 1];
        assert(event_step(before, e, after));
        assert forall|s: i64|
            s >= after.wanted() && #[trigger] received_before(events, k, s) implies buffers(
            after,
            s,
        ) by {
            let i = choose|i: int|
                0 <= i < k && (#[trigger] events[i] matches SequencerEvent::Udp(m) && m.seq_of()
                    == s);
            if i < k - 1 {
                assert(received_before(events, k - 1, s));
                assert(s >= before.wanted());
                let y = choose|y: ReceivedMessage| #[trigger]
                    before.buffered().contains(y) && y.seq_of() == s;
                match e {
                    SequencerEvent::Udp(m) => {
                        assert(after.buffered().contains(y));
                    },
                    SequencerEvent::Ready(r) => match r {
                        Some(m) => {
                            assert(after.buffered().insert(m).count(y) == before.buffered().count(y));
                            assert(y != m);
                            assert(after.buffered().contains(y));
                        },
                        None => {
                            assert(after.buffered().count(y) == before.buffered().count(y));
                            assert(after.buffered().contains(y));
                        },
                    },
                    SequencerEvent::Tick => {
                        assert(after.buffered().contains(y));
                    },
                    SequencerEvent::Recovered(_) => {
                        assert(after.buffered().contains(y));
                    },
                }
            } else {
                if let SequencerEvent::Udp(m) = e {
                    assert(m.seq_of() == s);
                    assert(after.buffered().contains(m));
                }
            }
        }
    }
}

/// Every message received is delivered, in sequence order and once: along
/// a run whose last event finds nothing more to deliver in the buffer, if
/// every sequence from the first wanted one up to `limit` was received on
/// the socket at some point, then every one of them is delivered, later
/// deliveries carry greater sequences, and the sequencer ends up wanting
/// `limit` or later.
pub proof fn lemma_every_received_sequence_is_delivered(
    states: Seq<SequencerState>,
    events: Seq<SequencerEvent>,
    limit: int,
)
    requires
        is_run(states, events),
        events.len() > 0,
        events.last() == SequencerEvent::Ready(None),
        forall|s: i64|
            states[0].wanted() <= s < limit ==> #[trigger] received_before(
                events,
                events.len() as int,
                s,
            ),
    ensures
        states.last().wanted() >= limit,
        forall|s: i64|
            states[0].wanted() <= s < limit ==> #[trigger] delivers(deliveries(states, events), s),
        forall|i: int, j: int|
            0 <= i < j < events.len() && (#[trigger] deliveries(states, events)[i] is Some) && (
            #[trigger] deliveries(states, events)[j] is Some) ==> deliveries(states, events)[i].unwrap()
                < deliveries(states, events)[j].unwrap(),
{
    let n = events.len() as int;
    lemma_received_stay_buffered(states, events, n);
    let last = states[n];
    let before = states[n - 1];
    assert(event_step(before, events[n - 1], last));
    if last.wanted() < limit {
        let s = last.wanted();
        assert(received_before(events, n, s));
        let y = choose|y: ReceivedMessage| #[trigger] last.buffered().contains(y) && y.seq_of() == s;
        assert(y.seq_of() > before.wanted());
    }
    let wants = Seq::new((n + 1) as nat, |i: int| states[i].wanted());
    let delivered = deliveries(states, events);
    assert forall|i: int| 0 <= i < delivered.len() implies #[trigger] delivery_step(
        wants[i],
        delivered[i],
        wants[i + 1],
    ) by {
        assert(event_step(states[i], events[i], states[i + 1]));
    }
    lemma_delivered_in_order(wants, delivered);
    assert(wants.last() == last.wanted());
}

impl SequencerState {
    /// The buffered messages are well formed and none has the highest
    /// sequence, so that the wanted sequence can always move past them.
    pub closed spec fn wf(&self) -> bool {
        &&& self.heap.wf()
        &&& forall|y: ReceivedMessage| #[trigger]
            self.heap.contents().contains(y) ==> y.seq_of() < i64::MAX
    }

    /// The messages received ahead of the wanted one.
    pub closed spec fn buffered(&self) -> Multiset<ReceivedMessage> {
        self.heap.contents()
    }

    /// The sequence of the next message to deliver.
    pub closed spec fn wanted(&self) -> i64 {
        self.want_sequence
    }

    /// When the wanted message is due.
    pub closed spec fn deadline(&self) -> u128 {
        self.last_deadline
    }

    /// Whether a message has arrived on the socket since the last
    /// disconnection.
    pub closed spec fn is_connected(&self) -> bool {
        self.connected
    }

    /// How long to wait for the wanted message, in nanoseconds.
    pub closed spec fn timeout(&self) -> u64 {
        self.sequence_timeout
    }

    /// The buffered messages, as a heap.
    pub closed spec fn heap_spec(&self) -> MinMaxHeap {
        self.heap
    }

    /// The deadline `now` plus the timeout.
    pub open spec fn due(&self, now: u64) -> u128 {
        (now + self.timeout()) as u128
    }

    /// Only the wanted sequence is missing: the lowest buffered sequence
    /// follows it and the buffered sequences leave no gap.
    pub open spec fn single_missing(&self) -> bool {
        &&& exists|x: ReceivedMessage| #[trigger]
            self.heap_spec().is_least(x) && x.seq_of() == self.wanted() + 1
        &&& !self.heap_spec().spans_gap()
    }

    /// A sequencer that wants `want_sequence` first and gives each message
    /// `sequence_timeout` nanoseconds to arrive.
    pub fn new(want_sequence: i64, sequence_timeout: u64, now: u64) -> (r: Self)
        ensures
            r.wf(),
            r.buffered() =~= Multiset::<ReceivedMessage>::empty(),
            r.wanted() == want_sequence,
            r.timeout() == sequence_timeout,
            r.deadline() == now as u128,
            !r.is_connected(),
    {
        SequencerState {
            heap: MinMaxHeap::new(),
            sequence_timeout,
            want_sequence,
            last_deadline: now as u128,
            connected: false,
        }
    }

    /// The sequence of the next message to deliver.
    pub fn want_sequence(&self) -> (r: i64)
        ensures
            r == self.wanted(),
    {
        self.want_sequence
    }

    /// When the wanted message is due, in nanoseconds.
    pub fn deadline_at(&self) -> (r: u128)
        ensures
            r == self.deadline(),
    {
        self.last_deadline
    }

    /// The messages received ahead of the wanted one.
    pub fn heap(&self) -> (r: &MinMaxHeap)
        ensures
            *r == self.heap_spec(),
            r.contents() == self.buffered(),
    {
        &self.heap
    }

    /// The inputs on which [`SequencerState::on_tick`] has a defined
    /// outcome: once the deadline has passed with messages buffered, the
    /// wanted sequence can be counted past, and when the lowest buffered
    /// sequence follows the wanted one, the buffered sequences span less
    /// than `i64::MAX`.
    pub open spec fn tick_defined(&self, now: u64) -> bool {
        (now > self.deadline() && self.buffered().len() > 0) ==> {
            &&& self.wanted() < i64::MAX
            &&& (exists|x: ReceivedMessage| #[trigger]
                self.heap_spec().is_least(x) && x.seq_of() == self.wanted() + 1)
                ==> self.heap_spec().spread_fits()
        }
    }

    /// Takes a message received on the socket.
    ///
    /// A message of the wanted sequence is delivered at once; one of a
    /// lower sequence was delivered before and is dropped; one of a higher
    /// sequence is buffered until its turn.
    pub fn on_udp_message(&mut self, msg: ReceivedMessage, now: u64) -> (r: Option<
        ReceivedMessage,
    >)
        requires
            old(self).wf(),
            msg.seq_of() < i64::MAX,
            old(self).buffered().len() < usize::MAX,
        ensures
            event_step(*old(self), SequencerEvent::Udp(msg), *final(self)),
            final(self).wf(),
            final(self).is_connected(),
            final(self).timeout() == old(self).timeout(),
            delivery_step(
                old(self).wanted(),
                match r {
                    Some(m) => Some(m.seq_of()),
                    None => None,
                },
                final(self).wanted(),
            ),
            msg.seq_of() < old(self).wanted() ==> {
                &&& r is None
                &&& final(self).buffered() == old(self).buffered()
                &&& final(self).wanted() == old(self).wanted()
                &&& final(self).deadline() == old(self).deadline()
            },
            msg.seq_of() == old(self).wanted() ==> {
                &&& r == Some(msg)
                &&& final(self).buffered() == old(self).buffered()
                &&& final(self).wanted() == old(self).wanted() + 1
                &&& final(self).deadline() == old(self).due(now)
            },
            msg.seq_of() > old(self).wanted() ==> {
                &&& r is None
                &&& final(self).buffered() == old(self).buffered().insert(msg)
                &&& final(self).wanted() == old(self).wanted()
                &&& final(self).deadline() == old(self).deadline()
            },
    {
        self.connected = true;
        let s = msg.sequence();
        if s < self.want_sequence {
            None
        } else if s == self.want_sequence {
            self.want_sequence = self.want_sequence + 1;
            self.last_deadline = now as u128 + self.sequence_timeout as u128;
            Some(msg)
        } else {
            let ghost before = self.heap.contents();
            self.heap.push(msg);
            proof {
                broadcast use vstd::multiset::group_multiset_axioms;

                assert forall|y: ReceivedMessage| #[trigger]
                    self.heap.contents().contains(y) implies y.seq_of() < i64::MAX by {
                    if y != msg {
                        assert(before.contains(y));
                    }
                }
            }
            None
        }
    }

    /// Decides, at time `now`, what to do while the wanted message has not
    /// arrived.
    ///
    /// Before the deadline: wait for what remains of it. After it, with
    /// messages buffered: request the wanted message alone when it is the
    /// only one missing, else a restream from it. After it, with nothing
    /// buffered: the publisher is considered gone.
    pub fn on_tick(&mut self, now: u64) -> (r: ListenAction)
        requires
            old(self).wf(),
            old(self).tick_defined(now),
        ensures
            event_step(*old(self), SequencerEvent::Tick, *final(self)),
            final(self).wf(),
            delivery_step(old(self).wanted(), None, final(self).wanted()),
            final(self).buffered() == old(self).buffered(),
            final(self).wanted() == old(self).wanted(),
            final(self).deadline() == old(self).deadline(),
            final(self).timeout() == old(self).timeout(),
            now <= old(self).deadline() ==> {
                &&& r == ListenAction::Wait((old(self).deadline() - now) as u128)
                &&& final(self).is_connected() == old(self).is_connected()
            },
            now > old(self).deadline() && old(self).buffered().len() > 0 ==> {
                &&& r == if old(self).single_missing() {
                    ListenAction::RequestMissing(old(self).wanted())
                } else {
                    ListenAction::RequestStream(old(self).wanted())
                }
                &&& final(self).is_connected() == old(self).is_connected()
            },
            now > old(self).deadline() && old(self).buffered().len() == 0 ==> {
                &&& r == ListenAction::Disconnected
                &&& !final(self).is_connected()
            },
    {
        if (now as u128) > self.last_deadline {
            match self.heap.peek() {
                Some(next) => {
                    let ghost least = *next;
                    let single_missing = self.want_sequence + 1 == next.sequence()
                        && !self.heap.has_gaps();
                    proof {
                        if single_missing {
                            assert(self.heap.is_least(least) && least.seq_of() == self.want_sequence + 1);
                        }
                        if self.single_missing() {
                            let x = choose|x: ReceivedMessage| #[trigger]
                                self.heap_spec().is_least(x) && x.seq_of() == self.wanted() + 1;
                            assert(least.seq_of() <= x.seq_of() && x.seq_of() <= least.seq_of());
                        }
                    }
                    if single_missing {
                        ListenAction::RequestMissing(self.want_sequence)
                    } else {
                        ListenAction::RequestStream(self.want_sequence)
                    }
                },
                None => {
                    // the socket has stopped receiving messages
                    self.connected = false;
                    ListenAction::Disconnected
                },
            }
        } else {
            ListenAction::Wait(self.last_deadline - now as u128)
        }
    }

    /// Takes a recovered message (from a restream or a single request): it
    /// must carry the wanted sequence, which then moves on by one.
    pub fn on_recovered(&mut self, msg: ReceivedMessage, now: u64) -> (r: Result<
        ReceivedMessage,
        SubscriberStreamError,
    >)
        requires
            old(self).wf(),
            msg.seq_of() == old(self).wanted() ==> msg.seq_of() < i64::MAX,
        ensures
            event_step(*old(self), SequencerEvent::Recovered(r is Ok), *final(self)),
            final(self).wf(),
            delivery_step(
                old(self).wanted(),
                match r {
                    Ok(m) => Some(m.seq_of()),
                    Err(_) => None,
                },
                final(self).wanted(),
            ),
            final(self).buffered() == old(self).buffered(),
            final(self).timeout() == old(self).timeout(),
            final(self).is_connected() == old(self).is_connected(),
            match r {
                Ok(m) => {
                    &&& m == msg
                    &&& msg.seq_of() == old(self).wanted()
                    &&& final(self).wanted() == old(self).wanted() + 1
                    &&& final(self).deadline() == old(self).due(now)
                },
                Err(e) => {
                    &&& e == SubscriberStreamError::InvalidSequence
                    &&& msg.seq_of() != old(self).wanted()
                    &&& final(self).wanted() == old(self).wanted()
                    &&& final(self).deadline() == old(self).deadline()
                },
            },
    {
        if msg.sequence() != self.want_sequence {
            return Err(SubscriberStreamError::InvalidSequence);
        }
        self.want_sequence = self.want_sequence + 1;
        self.last_deadline = now as u128 + self.sequence_timeout as u128;
        Ok(msg)
    }

    /// Delivers the buffered message of the wanted sequence, if there is
    /// one, dropping the buffered messages of lower sequences on the way.
    ///
    /// When nothing can be delivered and no message has arrived since the
    /// last disconnection, the deadline starts anew from `now`.
    pub fn take_ready(&mut self, now: u64) -> (r: Option<ReceivedMessage>)
        requires
            old(self).wf(),
        ensures
            event_step(*old(self), SequencerEvent::Ready(r), *final(self)),
            final(self).wf(),
            delivery_step(
                old(self).wanted(),
                match r {
                    Some(m) => Some(m.seq_of()),
                    None => None,
                },
                final(self).wanted(),
            ),
            final(self).timeout() == old(self).timeout(),
            final(self).is_connected() == old(self).is_connected(),
            (exists|m: ReceivedMessage| #[trigger] old(self).buffered().contains(m) && m.seq_of()
                == old(self).wanted()) ==> r is Some,
            match r {
                Some(m) => {
                    &&& m.seq_of() == old(self).wanted()
                    &&& old(self).buffered().contains(m)
                    &&& stale_dropped(old(self).buffered(), final(self).buffered().insert(m), old(self).wanted())
                    &&& final(self).wanted() == old(self).wanted() + 1
                    &&& final(self).deadline() == old(self).due(now)
                },
                None => {
                    &&& stale_dropped(old(self).buffered(), final(self).buffered(), old(self).wanted())
                    &&& forall|y: ReceivedMessage| #[trigger]
                        final(self).buffered().contains(y) ==> y.seq_of() > old(self).wanted()
                    &&& final(self).wanted() == old(self).wanted()
                    &&& final(self).deadline() == if old(self).is_connected() {
                        old(self).deadline()
                    } else {
                        old(self).due(now)
                    }
                },
            },
    {
        let ghost start = self.heap.contents();
        let want = self.want_sequence;
        loop
            invariant
                self.heap.wf(),
                forall|y: ReceivedMessage| #[trigger]
                    self.heap.contents().contains(y) ==> y.seq_of() < i64::MAX,
                self.want_sequence == want,
                want == old(self).want_sequence,
                self.sequence_timeout == old(self).sequence_timeout,
                self.connected == old(self).connected,
                self.last_deadline == old(self).last_deadline,
                start == old(self).heap.contents(),
                forall|y: ReceivedMessage| #[trigger]
                    self.heap.contents().count(y) == if y.seq_of() >= want {
                        start.count(y)
                    } else {
                        self.heap.contents().count(y)
                    },
                forall|y: ReceivedMessage| #[trigger]
                    self.heap.contents().count(y) <= start.count(y),
            ensures
                self.heap.wf(),
                forall|y: ReceivedMessage| #[trigger]
                    self.heap.contents().contains(y) ==> y.seq_of() < i64::MAX,
                self.want_sequence == want,
                want == old(self).want_sequence,
                self.sequence_timeout == old(self).sequence_timeout,
                self.connected == old(self).connected,
                self.last_deadline == old(self).last_deadline,
                forall|y: ReceivedMessage| #[trigger]
                    self.heap.contents().count(y) == if y.seq_of() >= want {
                        start.count(y)
                    } else {
                        self.heap.contents().count(y)
                    },
                forall|y: ReceivedMessage| #[trigger]
                    self.heap.contents().contains(y) ==> y.seq_of() > want,
            decreases self.heap.contents().len(),
        {
            let next = self.heap.peek();
            match next {
                None => {
                    proof {
                        broadcast use vstd::multiset::group_multiset_axioms;

                    }
                    break;
                },
                Some(m) => {
                    let s = m.sequence();
                    let ghost least = *m;
                    if s == want {
                        let ghost before = self.heap.contents();
                        // just peeked: the heap holds a message
                        let msg = self.heap.pop().unwrap();
                        self.want_sequence = want + 1;
                        self.last_deadline = now as u128 + self.sequence_timeout as u128;
                        proof {
                            broadcast use vstd::multiset::group_multiset_axioms;

                            assert(before.contains(msg));
                            assert(before.contains(least));
                            assert(msg.seq_of() == want);
                            assert forall|y: ReceivedMessage| #[trigger]
                                self.heap.contents().contains(y) implies y.seq_of() < i64::MAX by {
                                assert(before.contains(y));
                            }
                            assert forall|y: ReceivedMessage| #[trigger]
                                self.heap.contents().insert(msg).count(y) == if y.seq_of() < want {
                                    0
                                } else {
                                    start.count(y)
                                } by {
                                if y.seq_of() < want {
                                    if before.count(y) > 0 {
                                        assert(before.contains(y));
                                    }
                                }
                            }
                        }
                        return Some(msg);
                    } else if s < want {
                        let ghost before = self.heap.contents();
                        let gone = self.heap.pop();
                        proof {
                            broadcast use vstd::multiset::group_multiset_axioms;

                            let g = gone.unwrap();
                            assert(before.contains(least));
                            assert(g.seq_of() <= s);
                            assert forall|y: ReceivedMessage| #[trigger]
                                self.heap.contents().contains(y) implies y.seq_of() < i64::MAX by {
                                assert(before.contains(y));
                            }
                        }
                    } else {
                        proof {
                            assert forall|y: ReceivedMessage| #[trigger]
                                self.heap.contents().contains(y) implies y.seq_of() > want by {
                                assert(least.seq_of() <= y.seq_of());
                            }
                        }
                        break;
                    }
                },
            }
        }
        proof {
            // the wanted message, had it been buffered, would have been delivered
            if exists|m: ReceivedMessage| #[trigger] start.contains(m) && m.seq_of() == want {
                let m = choose|m: ReceivedMessage| #[trigger] start.contains(m) && m.seq_of() == want;
                assert(self.heap.contents().count(m) == start.count(m));
                assert(self.heap.contents().contains(m));
            }
        }
        if !self.connected {
            self.last_deadline = now as u128 + self.sequence_timeout as u128;
        }
        proof {
            broadcast use vstd::multiset::group_multiset_axioms;

            assert forall|y: ReceivedMessage| #[trigger]
                self.heap.contents().count(y) == if y.seq_of() < want {
                    0
                } else {
                    start.count(y)
                } by {
                if y.seq_of() < want && self.heap.contents().count(y) > 0 {
                    assert(self.heap.contents().contains(y));
                }
            }
        }
        None
    }
}

/// What an in-sequence message turns out to be: a heartbeat, a start, or a
/// delta whose encoded body is handed out for decoding. `None` when the
/// message carries no payload.
pub fn parse_payload(raw: &RawMessage) -> (r: Option<SubscriberStreamMessage<&[u8]>>)
    ensures
        match raw.payload {
            None => r is None,
            Some(Payload::Heartbeat(_)) => r == Some(SubscriberStreamMessage::<&[u8]>::Heartbeat),
            Some(Payload::Started(_)) => r == Some(SubscriberStreamMessage::<&[u8]>::Started),
            Some(Payload::Delta(d)) => r matches Some(SubscriberStreamMessage::Delta(b)) && b@
                == d.body@,
        },
{
    match &raw.payload {
        None => None,
        Some(Payload::Heartbeat(_)) => Some(SubscriberStreamMessage::Heartbeat),
        Some(Payload::Started(_)) => Some(SubscriberStreamMessage::Started),
        Some(Payload::Delta(d)) => Some(SubscriberStreamMessage::Delta(d.body.as_slice())),
    }
}

/// The stream event for a message in sequence, whose payload was parsed
/// into `payload`, stamped with its send and receive times.
pub fn stream_message<T>(msg: &ReceivedMessage, payload: SubscriberStreamMessage<T>) -> (r:
    SubscriberStream<T>)
    requires
        datetime_convertible(msg.raw.metadata.timestamp),
        datetime_convertible(msg.recv_ts),
    ensures
        r matches SubscriberStream::Message { send_ts, recv_ts, origin, msg: m } && origin
            == msg.origin && m == payload && datetime_of(msg.raw.metadata.timestamp) == Some(send_ts)
            && datetime_of(msg.recv_ts) == Some(recv_ts),
{
    SubscriberStream::Message {
        send_ts: ns_to_datetime(msg.raw.metadata.timestamp),
        recv_ts: ns_to_datetime(msg.recv_ts),
        origin: msg.origin,
        msg: payload,
    }
}

} // verus!
