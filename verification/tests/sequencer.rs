//! Runs of the sequencer's decisions against a simulated socket, clock and
//! recovery service.
use grapevine::proto::grapevine::raw_message::Payload;
use grapevine::proto::grapevine::{Delta, Heartbeat, Metadata, RawMessage, Started};
use grapevine::subscriber::aggregator::get_delta;
use grapevine::subscriber::message::{Origin, ReceivedMessage, SubscriberStreamMessage};
use grapevine::subscriber::sequencer::{
    parse_payload, stream_message, ListenAction, SequencerState, SubscriberStream, SubscriberStreamError,
};

const MS: u64 = 1_000_000;

fn make_raw_msg(i: i64) -> RawMessage {
    RawMessage {
        metadata: Metadata { timestamp: 1_000 + i, sequence: i },
        payload: Some(Payload::Delta(Delta { body: i.to_le_bytes().to_vec() })),
    }
}

fn received(raw: RawMessage, origin: Origin, now: u64) -> ReceivedMessage {
    ReceivedMessage { recv_ts: now as i64, origin, raw }
}

fn id_of(msg: &ReceivedMessage) -> (i64, Origin) {
    let body = match parse_payload(&msg.raw) {
        Some(SubscriberStreamMessage::Delta(b)) => b.to_vec(),
        _ => panic!("not a delta"),
    };
    let mut bytes = [0u8; 8];
    bytes.copy_from_slice(&body);
    (i64::from_le_bytes(bytes), msg.origin)
}

/// Feeds `source` to the sequencer one packet a millisecond, answers its
/// requests from a recovery service holding messages `0..total`, and
/// collects `expected` deliveries.
fn run(source: Vec<i64>, expected: usize, want: i64, timeout: u64, total: i64) -> Vec<(i64, Origin)> {
    let mut now: u64 = 0;
    let mut state = SequencerState::new(want, timeout, now);
    let mut packets = source.into_iter();
    let mut recovery: Option<std::vec::IntoIter<i64>> = None;
    let mut out = vec![];
    'outer: while out.len() < expected {
        if let Some(stream) = recovery.as_mut() {
            if let Some(id) = stream.next() {
                let msg = received(make_raw_msg(id), Origin::Sync, now);
                out.push(id_of(&state.on_recovered(msg, now).unwrap()));
                continue;
            }
            recovery = None;
        }
        if let Some(msg) = state.take_ready(now) {
            out.push(id_of(&msg));
            continue;
        }
        loop {
            match state.on_tick(now) {
                ListenAction::Wait(left) => {
                    if left >= MS as u128 {
                        if let Some(id) = packets.next() {
                            now += MS;
                            let msg = received(make_raw_msg(id), Origin::Udp, now);
                            if let Some(m) = state.on_udp_message(msg, now) {
                                out.push(id_of(&m));
                                continue 'outer;
                            }
                            continue;
                        }
                    }
                    now += left as u64 + 1;
                }
                ListenAction::RequestMissing(w) => {
                    let msg = received(make_raw_msg(w), Origin::Missing, now);
                    out.push(id_of(&state.on_recovered(msg, now).unwrap()));
                    continue 'outer;
                }
                ListenAction::RequestStream(w) => {
                    let mut stream = (w..total).collect::<Vec<_>>().into_iter();
                    let first = stream.next().unwrap();
                    let msg = received(make_raw_msg(first), Origin::Sync, now);
                    out.push(id_of(&state.on_recovered(msg, now).unwrap()));
                    recovery = Some(stream);
                    continue 'outer;
                }
                ListenAction::Disconnected => panic!("disconnected"),
            }
        }
    }
    out
}

/// A fixed mixing of `0..count`.
fn shuffled(count: i64) -> Vec<i64> {
    (0..count).map(|i| (i * 37 + 11) % count).collect()
}

#[test]
fn ordered() {
    let count = 100;
    let source: Vec<_> = (0..count).collect();
    let target: Vec<_> = (0..count).map(|id| (id, Origin::Udp)).collect();
    assert_eq!(run(source, target.len(), 0, 60_000 * MS, target.len() as i64), target);
}

#[test]
fn unordered() {
    let count = 100;
    let target: Vec<_> = (0..count).map(|id| (id, Origin::Udp)).collect();
    let source = shuffled(count);
    assert_eq!(run(source, target.len(), 0, 60_000 * MS, target.len() as i64), target);
}

#[test]
fn unordered_from() {
    let count = 100;
    let target: Vec<_> = (10..count).map(|id| (id, Origin::Udp)).collect();
    let source = shuffled(count);
    assert_eq!(run(source, target.len(), 10, 60_000 * MS, target.len() as i64), target);
}

#[test]
fn unordered_with_duplicates() {
    let count = 100;
    let target: Vec<_> = (0..count).map(|id| (id, Origin::Udp)).collect();
    let mut source = shuffled(count);
    source.extend(shuffled(count));
    assert_eq!(run(source, target.len(), 0, 60_000 * MS, target.len() as i64), target);
}

#[test]
fn singe_recovery() {
    let count = 100;
    let mut target: Vec<_> = (0..count).map(|id| (id, Origin::Udp)).collect();
    let mut source = shuffled(count);
    let missing_id = source.pop().unwrap();
    assert!(missing_id < count - 1);
    target[missing_id as usize].1 = Origin::Missing;
    assert_eq!(run(source, target.len(), 0, 250 * MS, target.len() as i64), target);
}

#[test]
fn batch_recovery() {
    let count = 100;
    let missing = vec![70, 72, 74, 76, 78];
    let target: Vec<_> = (0..70)
        .map(|id| (id, Origin::Udp))
        .chain((70..100).map(|id| (id, Origin::Sync)))
        .collect();
    let source: Vec<_> = (0..count).filter(|v| !missing.contains(v)).collect();
    assert_eq!(run(source, target.len(), 0, 250 * MS, target.len() as i64), target);
}

#[test]
fn batch_recovery_with_duplicates() {
    let target: Vec<_> = (0..70)
        .map(|id| (id, Origin::Udp))
        .chain((70..100).map(|id| (id, Origin::Sync)))
        .collect();
    let missing = vec![70, 72, 74, 76, 78];
    let duplicates = vec![71, 73, 75, 77, 79];
    let source: Vec<_> = (0..100).filter(|v| !missing.contains(v)).chain(duplicates).collect();
    assert_eq!(source.len(), target.len());
    assert_eq!(run(source, target.len(), 0, 250 * MS, target.len() as i64), target);
}

#[test]
fn recovered_message_must_be_the_wanted_one() {
    let mut state = SequencerState::new(5, MS, 0);
    let wrong = received(make_raw_msg(6), Origin::Missing, 0);
    assert_eq!(state.on_recovered(wrong, 0).unwrap_err(), SubscriberStreamError::InvalidSequence);
    assert_eq!(state.want_sequence(), 5);
}

#[test]
fn silence_without_buffer_is_a_disconnection() {
    let mut state = SequencerState::new(0, MS, 0);
    assert_eq!(state.deadline_at(), 0);
    assert_eq!(state.take_ready(0), None);
    assert_eq!(state.deadline_at(), MS as u128);
    assert_eq!(state.on_tick(10), ListenAction::Wait((MS - 10) as u128));
    assert_eq!(state.on_tick(MS), ListenAction::Wait(0));
    assert_eq!(state.on_tick(MS + 1), ListenAction::Disconnected);
}

#[test]
fn payload_kinds_and_stream_events() {
    let mut raw = make_raw_msg(3);
    assert!(matches!(parse_payload(&raw), Some(SubscriberStreamMessage::Delta(_))));
    raw.payload = Some(Payload::Heartbeat(Heartbeat {}));
    assert!(matches!(parse_payload(&raw), Some(SubscriberStreamMessage::Heartbeat)));
    raw.payload = Some(Payload::Started(Started {}));
    assert!(matches!(parse_payload(&raw), Some(SubscriberStreamMessage::Started)));
    raw.payload = None;
    assert!(parse_payload(&raw).is_none());

    let msg = received(make_raw_msg(4), Origin::Sync, 2_000_000_000);
    let event = stream_message(&msg, SubscriberStreamMessage::Delta(17u8));
    match &event {
        SubscriberStream::Message { origin, send_ts, recv_ts, .. } => {
            assert_eq!(*origin, Origin::Sync);
            assert_eq!(send_ts.and_utc().timestamp_nanos_opt(), Some(1_004));
            assert_eq!(recv_ts.and_utc().timestamp(), 2);
        }
        SubscriberStream::Disconnected => panic!("expected a message"),
    }
    assert_eq!(get_delta(event), Some(17u8));
    assert_eq!(get_delta(SubscriberStream::<u8>::Disconnected), None);
}
