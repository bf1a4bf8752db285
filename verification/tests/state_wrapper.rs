use grapevine::proto::tree_state::leaf_delta::Delta as LeafChange;
use grapevine::proto::tree_state::{Leaf, LeafDelta, NewLeaf, TreeState};
use grapevine::publisher::state_wrapper::stamp_and_apply;
use grapevine::publisher::PublisherStateWrapper;
use grapevine::proto::grapevine::raw_message::Payload;
use grapevine::proto::grapevine::{Delta, Heartbeat, Started};
use grapevine::subscriber::{SubscriberStateWrapper, SyncStatus};

#[test]
fn test_stamp() {
    let mut state_wrapper = PublisherStateWrapper::from_parts((), 0);
    assert_eq!(state_wrapper.stamp(), 0);
    assert_eq!(state_wrapper.stamp(), 1);
    assert_eq!(state_wrapper.stamp(), 2);
    let mut state_wrapper = PublisherStateWrapper::<()>::with_sequence(10);
    assert_eq!(state_wrapper.stamp(), 10);
    assert_eq!(state_wrapper.stamp(), 11);
}

#[test]
fn stamp_messages_take_consecutive_sequences() {
    let mut state_wrapper = PublisherStateWrapper::<()>::with_sequence(4);
    let started = state_wrapper.started_message();
    let heartbeat = state_wrapper.heartbeat_message();
    assert_eq!(started.metadata.sequence, 4);
    assert_eq!(started.payload, Some(Payload::Started(Started {})));
    assert_eq!(heartbeat.metadata.sequence, 5);
    assert_eq!(heartbeat.payload, Some(Payload::Heartbeat(Heartbeat {})));
    assert_eq!(state_wrapper.sequence(), 6);
}

#[test]
fn state_mut_changes_only_the_state() {
    let mut state_wrapper = PublisherStateWrapper::from_parts(1u32, 7);
    *state_wrapper.state_mut() = 9;
    assert_eq!(*state_wrapper.state(), 9);
    assert_eq!(state_wrapper.sequence(), 7);
}

#[test]
fn subscriber_status_follows_the_stream() {
    let mut wrapper = SubscriberStateWrapper::new(3u8);
    assert_eq!(wrapper.sync_status(), SyncStatus::Syncing);
    assert_eq!(SyncStatus::default(), SyncStatus::Syncing);
    wrapper.mark_in_sequence(false);
    assert_eq!(wrapper.sync_status(), SyncStatus::Syncing);
    wrapper.mark_in_sequence(true);
    assert_eq!(wrapper.sync_status(), SyncStatus::Sync);
    wrapper.mark_missed_heartbeat();
    assert_eq!(wrapper.sync_status(), SyncStatus::MissedHeartbeat);
    *wrapper.state_mut() = 4;
    assert_eq!(*wrapper.state(), 4);
    assert_eq!(wrapper.sync_status(), SyncStatus::MissedHeartbeat);
}

#[test]
fn stamp_and_apply_stamps_only_applied_deltas() {
    let mut wrapper = PublisherStateWrapper::<TreeState>::with_sequence(3);
    let delta = LeafDelta { delta: Some(LeafChange::NewLeaf(NewLeaf { leaf: Leaf { id: 5, a: 1, b: 1 } })) };
    let message = stamp_and_apply(&mut wrapper, delta, vec![9, 9]).unwrap();
    assert_eq!(message.metadata.sequence, 3);
    assert_eq!(message.payload, Some(Payload::Delta(Delta { body: vec![9, 9] })));
    assert_eq!(wrapper.sequence(), 4);
    assert_eq!(wrapper.state().leaves.len(), 1);
    let delta = LeafDelta { delta: Some(LeafChange::NewLeaf(NewLeaf { leaf: Leaf { id: 6, a: 3, b: 4 } })) };
    let message = stamp_and_apply(&mut wrapper, delta, vec![1]).unwrap();
    assert_eq!(message.metadata.sequence, 4);
    assert_eq!(wrapper.sequence(), 5);
    assert_eq!(wrapper.state().leaves.len(), 2);
}
