use grapevine::proto::grapevine::raw_message::Payload;
use grapevine::proto::grapevine::{Delta, Metadata, RawMessage};
use grapevine::subscriber::errors::IrrecoverableError;
use grapevine::proto::tree_state::leaf_delta::Delta as LeafChange;
use grapevine::proto::tree_state::{Leaf, LeafDelta, NewLeaf, TreeState};
use grapevine::subscriber::message::SubscriberStreamMessage;
use grapevine::subscriber::state_wrapper::{apply_in_sequence, ApplyAction};
use grapevine::subscriber::stream::{HeapStep, RecvAction, RecvError, StreamState, SyncStrategyAction};
use grapevine::subscriber::{SubscriberStateWrapper, SyncStatus};

fn raw(sequence: i64, timestamp: i64) -> RawMessage {
    RawMessage {
        metadata: Metadata { timestamp, sequence },
        payload: Some(Payload::Delta(Delta { body: vec![sequence as u8] })),
    }
}

#[test]
fn process_heap_seen_sequences() {
    let mut state = StreamState::new(Some(4), 0);
    (0..4).for_each(|i| {
        state.push_recovered(RawMessage {
            metadata: Metadata { sequence: i, ..Default::default() },
            payload: None,
        });
    });
    assert_eq!(state.process_heap(0, 0), HeapStep::Strategy(SyncStrategyAction::ListenDefault));
    assert_eq!(state.buffered_len(), 0);
    assert_eq!(state.want_sequence(), 5);
}

#[test]
fn first_wanted_follows_replica_log() {
    assert_eq!(StreamState::new(None, 3).want_sequence(), 0);
    assert_eq!(StreamState::new(Some(41), 3).want_sequence(), 42);
}

#[test]
fn handle_recv_applies_stores_and_discards() {
    let mut status = SubscriberStateWrapper::new(());
    let mut state = StreamState::new(Some(9), 3);
    assert_eq!(state.handle_recv(Ok(raw(10, 0)), &mut status), Ok(RecvAction::InSequence(raw(10, 0))));
    assert_eq!(state.want_sequence(), 11);
    assert_eq!(state.handle_recv(Ok(raw(13, 0)), &mut status), Ok(RecvAction::Store(13)));
    assert_eq!(state.buffered_len(), 1);
    assert_eq!(state.handle_recv(Ok(raw(4, 0)), &mut status), Ok(RecvAction::Discard(4)));
    assert_eq!(state.buffered_len(), 1);
    assert_eq!(state.handle_recv(Err(RecvError::Timeout), &mut status), Ok(RecvAction::Recover));
    assert_eq!(status.sync_status(), SyncStatus::Syncing);
    assert_eq!(state.handle_recv(Err(RecvError::IoError), &mut status), Err(IrrecoverableError::IoError));
    assert_eq!(
        state.handle_recv(Err(RecvError::SocketDisconnect), &mut status),
        Err(IrrecoverableError::SocketDisconnect)
    );
    assert_eq!(status.sync_status(), SyncStatus::Syncing);
    let mut empty = StreamState::new(None, 3);
    assert_eq!(empty.handle_recv(Err(RecvError::Timeout), &mut status), Ok(RecvAction::Timeout));
    assert_eq!(status.sync_status(), SyncStatus::MissedHeartbeat);
}

#[test]
fn take_ready_run_applies_the_whole_run() {
    let mut state = StreamState::new(Some(0), 10);
    for s in [3, 1, 2, 0, 2, 6] {
        state.push_recovered(raw(s, 0));
    }
    let (run, action) = state.take_ready_run(5, 100);
    assert_eq!(run, vec![raw(1, 0), raw(2, 0), raw(3, 0)]);
    assert_eq!(state.want_sequence(), 4);
    assert_eq!(state.buffered_len(), 1);
    assert_eq!(action, SyncStrategyAction::Listen(95));
    let (run, action) = state.take_ready_run(5, 100);
    assert!(run.is_empty());
    assert_eq!(action, SyncStrategyAction::Listen(95));
    let mut empty = StreamState::new(None, 3);
    assert_eq!(empty.take_ready_run(0, 0), (vec![], SyncStrategyAction::ListenDefault));
}

#[test]
fn apply_in_sequence_plays_messages_through_the_state() {
    let mut wrapper = SubscriberStateWrapper::new(TreeState::default());
    let leaf = Leaf { id: 1, a: 2, b: 3 };
    let new_leaf = LeafDelta { delta: Some(LeafChange::NewLeaf(NewLeaf { leaf })) };
    let action = apply_in_sequence(&mut wrapper, SubscriberStreamMessage::Delta((new_leaf, new_leaf)), false);
    assert_eq!(action, Ok(ApplyAction::Delta(new_leaf)));
    assert_eq!(wrapper.state().leaves.get(&1), Some(&leaf));
    assert_eq!(wrapper.sync_status(), SyncStatus::Syncing);
    let action = apply_in_sequence(&mut wrapper, SubscriberStreamMessage::Heartbeat, true);
    assert_eq!(action, Ok(ApplyAction::InSequenceNoOp));
    assert_eq!(wrapper.sync_status(), SyncStatus::Sync);
    assert_eq!(wrapper.state().leaves.len(), 1);
    let before = wrapper.state().clone();
    match apply_in_sequence(&mut wrapper, SubscriberStreamMessage::Started, true) {
        Ok(ApplyAction::Reset(old)) => assert_eq!(old, before),
        _ => panic!("expected a reset"),
    }
    assert_eq!(*wrapper.state(), TreeState::default());
}

#[test]
fn process_heap_applies_in_order() {
    let mut state = StreamState::new(Some(0), 10);
    for s in [3, 1, 2, 0] {
        state.push_recovered(raw(s, 0));
    }
    assert_eq!(state.process_heap(0, 0), HeapStep::Apply(raw(1, 0)));
    assert_eq!(state.process_heap(0, 0), HeapStep::Apply(raw(2, 0)));
    assert_eq!(state.process_heap(0, 0), HeapStep::Apply(raw(3, 0)));
    assert_eq!(state.process_heap(0, 0), HeapStep::Strategy(SyncStrategyAction::ListenDefault));
    assert_eq!(state.want_sequence(), 4);
}

#[test]
fn process_heap_waits_then_recovers_or_restreams() {
    // the next buffered message was sent at t = 100 and is given 50ns
    let mut state = StreamState::new(None, 2);
    state.push_recovered(raw(2, 100));
    assert_eq!(state.process_heap(120, 50), HeapStep::Strategy(SyncStrategyAction::Listen(30)));
    assert_eq!(state.process_heap(150, 50), HeapStep::Strategy(SyncStrategyAction::Recover));
    // three messages seem missing: more than the threshold of two
    let mut state = StreamState::new(None, 2);
    state.push_recovered(raw(3, 0));
    assert_eq!(state.process_heap(10, 0), HeapStep::Strategy(SyncStrategyAction::Restream));
    // many buffered messages also call for a restream
    let mut state = StreamState::new(None, 2);
    for s in [1, 1, 1] {
        state.push_recovered(raw(s, 0));
    }
    assert_eq!(state.process_heap(10, 0), HeapStep::Strategy(SyncStrategyAction::Restream));
}

#[test]
fn irrecoverable_error_text() {
    assert_eq!(IrrecoverableError::DeserializationError.as_str(), "Deserialization error");
    assert_eq!(IrrecoverableError::SocketDisconnect.as_str(), "Socket disconnect");
    assert_eq!(IrrecoverableError::IoError.as_str(), "Io error");
    assert_eq!(IrrecoverableError::GrpcError.as_str(), "Grpc error");
    assert_eq!(IrrecoverableError::PersistenceError.as_str(), "Persistence error");
}

#[test]
fn undecodable_messages_are_deserialization_errors() {
    let err = <i64 as prost::Message>::decode(&[0x80u8][..]).unwrap_err();
    assert_eq!(IrrecoverableError::from(err), IrrecoverableError::DeserializationError);
}
